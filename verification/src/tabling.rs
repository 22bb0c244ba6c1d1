//! Which functions need tabled evaluation: those that can call themselves,
//! directly or through other functions.

use crate::id_map::IdMap;
use crate::id_set::IdSet;
use crate::pattern::FunctionID;
use vstd::prelude::*;
use vstd::set_lib::lemma_len_subset;

verus! {

/// A call graph: for each function the functions that its body calls.
pub type CallGraph = IdMap<FunctionID, Vec<FunctionID>>;

/// The call graph as a map from each function to the list of its callees.
pub open spec fn call_lists(graph: &CallGraph) -> Map<FunctionID, Seq<FunctionID>> {
    graph@.map_values(|callees: Vec<FunctionID>| callees@)
}

/// Whether `caller` calls `callee`, both being functions of the graph.
pub open spec fn calls(
    graph: Map<FunctionID, Seq<FunctionID>>,
    caller: FunctionID,
    callee: FunctionID,
) -> bool {
    graph.contains_key(caller) && graph.contains_key(callee) && graph[caller].contains(callee)
}

/// Whether `path` is a chain of calls: at least one call, and each function
/// on it calls the next.
pub open spec fn is_call_chain(graph: Map<FunctionID, Seq<FunctionID>>, path: Seq<FunctionID>)
    -> bool {
    path.len() >= 2 && forall|i: int|
        0 <= i < path.len() - 1 ==> calls(graph, #[trigger] path[i], path[i + 1])
}

/// Whether a chain of calls leads from `from` to `to`.
pub open spec fn reaches(
    graph: Map<FunctionID, Seq<FunctionID>>,
    from: FunctionID,
    to: FunctionID,
) -> bool {
    exists|path: Seq<FunctionID>|
        #[trigger] is_call_chain(graph, path) && path[0] == from && path.last() == to
}

/// Whether `function` takes part in a recursion: it calls itself, or a chain
/// of calls leads from it back to it.
pub open spec fn is_recursive(graph: Map<FunctionID, Seq<FunctionID>>, function: FunctionID)
    -> bool {
    reaches(graph, function, function)
}

/// A call reaches its callee.
proof fn lemma_call_reaches(
    graph: Map<FunctionID, Seq<FunctionID>>,
    caller: FunctionID,
    callee: FunctionID,
)
    requires
        calls(graph, caller, callee),
    ensures
        reaches(graph, caller, callee),
{
    let path = seq![caller, callee];
    assert(is_call_chain(graph, path));
    assert(path[0] == caller && path.last() == callee);
}

/// What is reached, and then calls, reaches the callee.
proof fn lemma_reaches_then_calls(
    graph: Map<FunctionID, Seq<FunctionID>>,
    from: FunctionID,
    via: FunctionID,
    to: FunctionID,
)
    requires
        reaches(graph, from, via),
        calls(graph, via, to),
    ensures
        reaches(graph, from, to),
{
    let path = choose|path: Seq<FunctionID>|
        #[trigger] is_call_chain(graph, path) && path[0] == from && path.last() == via;
    let longer = path.push(to);
    assert forall|i: int| 0 <= i < longer.len() - 1 implies calls(
        graph,
        #[trigger] longer[i],
        longer[i + 1],
    ) by {
        if i < path.len() - 1 {
            assert(calls(graph, path[i], path[i + 1]));
        }
    }
    assert(is_call_chain(graph, longer));
    assert(longer[0] == from && longer.last() == to);
}

/// A set that holds the callees of `from` and the callees of its own members
/// holds everything that `from` reaches.
proof fn lemma_closed_set_holds_reached(
    graph: Map<FunctionID, Seq<FunctionID>>,
    from: FunctionID,
    closed: Set<FunctionID>,
    path: Seq<FunctionID>,
)
    requires
        forall|callee: FunctionID| calls(graph, from, callee) ==> closed.contains(callee),
        forall|member: FunctionID, callee: FunctionID|
            closed.contains(member) && calls(graph, member, callee) ==> closed.contains(callee),
        is_call_chain(graph, path),
        path[0] == from,
    ensures
        closed.contains(path.last()),
    decreases path.len(),
{
    if path.len() == 2 {
        assert(calls(graph, path[0], path[1]));
    } else {
        let front = path.drop_last();
        assert forall|i: int| 0 <= i < front.len() - 1 implies calls(
            graph,
            #[trigger] front[i],
            front[i + 1],
        ) by {
            assert(calls(graph, path[i], path[i + 1]));
        }
        lemma_closed_set_holds_reached(graph, from, closed, front);
        let before = path.len() - 2;
        assert(calls(graph, path[before], path[before + 1]));
    }
}

/// Whether `function` takes part in a recursion of the call graph.
pub fn calls_itself(graph: &CallGraph, function: FunctionID) -> (recursive: bool)
    requires
        graph.wf(),
        graph@.contains_key(function),
    ensures
        recursive == is_recursive(call_lists(graph), function),
{
    let ghost lists = call_lists(graph);
    let mut expanded: IdSet<FunctionID> = IdSet::new();
    let mut pending: Vec<FunctionID> = graph.get(&function).unwrap().clone();
    let size = graph.len();
    proof {
        assert(lists.dom() =~= graph@.dom());
        assert forall|i: int| 0 <= i < pending@.len() && lists.contains_key(
            #[trigger] pending@[i],
        ) implies reaches(lists, function, pending@[i]) by {
            lemma_call_reaches(lists, function, pending@[i]);
        }
    }
    while pending.len() > 0
        invariant
            graph.wf(),
            graph@.contains_key(function),
            lists == call_lists(graph),
            lists.dom() == graph@.dom(),
            graph@.dom().finite(),
            size == graph@.dom().len(),
            expanded.wf(),
            expanded@.finite(),
            expanded@.subset_of(graph@.dom()),
            forall|member: FunctionID| #[trigger]
                expanded@.contains(member) ==> reaches(lists, function, member),
            forall|i: int|
                0 <= i < pending@.len() && lists.contains_key(#[trigger] pending@[i])
                    ==> reaches(lists, function, pending@[i]),
            forall|callee: FunctionID|
                calls(lists, function, callee) ==> expanded@.contains(callee)
                    || pending@.contains(callee),
            forall|member: FunctionID, callee: FunctionID|
                expanded@.contains(member) && calls(lists, member, callee) ==> expanded@.contains(
                    callee,
                ) || pending@.contains(callee),
        decreases size - expanded@.len(), pending@.len(),
    {
        proof {
            lemma_len_subset(expanded@, graph@.dom());
        }
        let ghost before = pending@;
        let next = pending.pop().unwrap();
        proof {
            assert forall|other: FunctionID|
                before.contains(other) implies pending@.contains(other) || other == next by {
                let at = before.index_of(other);
                if at < pending@.len() {
                    assert(pending@[at] == other);
                }
            }
        }
        if !expanded.contains(&next) {
            match graph.get(&next) {
                Some(callees) => {
                    let ghost expanded_before = expanded@;
                    let ghost pending_before = pending@;
                    proof {
                        assert(before[before.len() - 1] == next);
                        assert(reaches(lists, function, next));
                        assert(expanded_before.subset_of(graph@.dom().remove(next)));
                        lemma_len_subset(expanded_before, graph@.dom().remove(next));
                    }
                    expanded.insert(next);
                    let mut more = callees.clone();
                    pending.append(&mut more);
                    proof {
                        assert forall|i: int|
                            0 <= i < pending@.len() && lists.contains_key(
                                #[trigger] pending@[i],
                            ) implies reaches(lists, function, pending@[i]) by {
                            if i >= pending_before.len() {
                                let at = i - pending_before.len();
                                assert(callees@[at] == pending@[i]);
                                lemma_reaches_then_calls(lists, function, next, pending@[i]);
                            } else {
                                assert(pending_before[i] == pending@[i]);
                            }
                        }
                        assert forall|other: FunctionID|
                            pending_before.contains(other) || callees@.contains(
                                other,
                            ) implies pending@.contains(other) by {
                            if pending_before.contains(other) {
                                let at = pending_before.index_of(other);
                                assert(pending@[at] == other);
                            } else {
                                let at = callees@.index_of(other);
                                assert(pending@[pending_before.len() + at] == other);
                            }
                        }
                    }
                },
                None => {},
            }
        }
    }
    proof {
        assert forall|callee: FunctionID| calls(lists, function, callee) implies expanded@.contains(
            callee,
        ) by {
            assert(!pending@.contains(callee));
        }
        assert forall|member: FunctionID, callee: FunctionID|
            expanded@.contains(member) && calls(
                lists,
                member,
                callee,
            ) implies expanded@.contains(callee) by {
            assert(!pending@.contains(callee));
        }
        if is_recursive(lists, function) {
            let path = choose|path: Seq<FunctionID>|
                #[trigger] is_call_chain(lists, path) && path[0] == function && path.last()
                    == function;
            lemma_closed_set_holds_reached(lists, function, expanded@, path);
        }
    }
    expanded.contains(&function)
}

/// For every function of the call graph, whether it needs tabled
/// evaluation: whether it takes part in a recursion.
pub fn recursive_functions(graph: &CallGraph) -> (tabling: IdMap<FunctionID, bool>)
    requires
        graph.wf(),
    ensures
        tabling.wf(),
        tabling@.dom() == graph@.dom(),
        forall|function: FunctionID| #[trigger]
            graph@.contains_key(function) ==> tabling@[function] == is_recursive(
                call_lists(graph),
                function,
            ),
{
    let functions = graph.keys();
    let mut tabling: IdMap<FunctionID, bool> = IdMap::new();
    let mut index: usize = 0;
    while index < functions.len()
        invariant
            index <= functions@.len(),
            graph.wf(),
            functions@.to_set() == graph@.dom(),
            tabling.wf(),
            tabling@.dom() == functions@.take(index as int).to_set(),
            forall|function: FunctionID| #[trigger]
                tabling@.contains_key(function) ==> tabling@[function] == is_recursive(
                    call_lists(graph),
                    function,
                ),
        decreases functions@.len() - index,
    {
        let function = functions[index];
        assert(functions@.to_set().contains(function));
        let recursive = calls_itself(graph, function);
        tabling.insert(function, recursive);
        proof {
            let before = functions@.take(index as int);
            let upto = functions@.take(index + 1);
            assert(upto =~= before.push(function));
            assert forall|other: FunctionID|
                upto.to_set().contains(other) <==> before.to_set().insert(function).contains(
                    other,
                ) by {
                if upto.contains(other) {
                    let at = upto.index_of(other);
                    if at < index {
                        assert(before[at] == other);
                    }
                }
                if before.contains(other) {
                    let at = before.index_of(other);
                    assert(upto[at] == other);
                }
                assert(upto[index as int] == function);
            }
            assert(tabling@.dom() =~= upto.to_set());
        }
        index += 1;
    }
    proof {
        assert(functions@.take(index as int) =~= functions@);
    }
    tabling
}

} // verus!
