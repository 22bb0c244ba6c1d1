//! Compiling a whole query: its functions, its stages and its fetch clause.

use crate::encoding::DefinitionKey;
use crate::executable_id::{nth_id, ExecutableIds};
use crate::fetch::{compile_fetch, fetch_outcome, AnnotatedFetch, ExecutableFetch};
use crate::function::{
    compile_function, function_compiled, function_failure, function_ready, stages_calls,
    AnnotatedFunction, ExecutableFunction, ExecutableFunctionRegistry,
};
use crate::id_map::IdMap;
use crate::pattern::FunctionID;
use crate::pipeline::{
    compile_pipeline_stages, initial_mapping, mappings_of, pipeline_compiled, pipeline_outcome,
    pipeline_ready, ExecutableCompilationError, ExecutableStage, FetchCompilationError,
};
use crate::registry::VariableRegistry;
use crate::stage::AnnotatedStage;
use crate::tabling::{call_lists, is_recursive, recursive_functions, CallGraph};
use crate::variable::{Variable, VariablePosition};
use vstd::prelude::*;

verus! {

/// A compiled query: the compiled functions, the compiled stages in order,
/// and the compiled fetch clause if the query has one.
pub struct ExecutablePipeline {
    pub executable_functions: ExecutableFunctionRegistry,
    pub executable_stages: Vec<ExecutableStage>,
    pub executable_fetch: Option<ExecutableFetch>,
}

/// The layout that a fetch clause is compiled against: that of the rows of
/// the last stage, and the empty layout where there is no stage.
pub open spec fn fetch_positions(mappings: Seq<Map<Variable, VariablePosition>>) -> Map<
    Variable,
    VariablePosition,
> {
    if mappings.len() == 0 {
        Map::empty()
    } else {
        mappings.last()
    }
}

/// The error that compiling stages and fetch clause ends in, if it ends in
/// one: that of the first stage that fails, or else that of the fetch
/// clause.
pub open spec fn stages_and_fetch_failure(
    stages: Seq<AnnotatedStage>,
    fetch: Option<AnnotatedFetch>,
    names: Map<Variable, Seq<char>>,
    selected: Seq<Variable>,
    input: Map<Variable, VariablePosition>,
    functions: spec_fn(FunctionID) -> bool,
) -> Option<ExecutableCompilationError> {
    match pipeline_outcome(stages, names, selected, input) {
        Err(error) => Some(error),
        Ok(mappings) => match fetch {
            None => None,
            Some(clause) => match fetch_outcome(
                clause.entries@,
                fetch_positions(mappings),
                functions,
            ) {
                Err(source) => Some(ExecutableCompilationError::FetchCompilation { source }),
                Ok(_) => None,
            },
        },
    }
}

/// Whether `executable` is what the fetch clause compiles to against the
/// rows of the compiled stages: nothing for no clause, and else the
/// instructions of the clause, under the identity `id`.
pub open spec fn fetch_compiled(
    executable: Option<ExecutableFetch>,
    fetch: Option<AnnotatedFetch>,
    stages: Seq<ExecutableStage>,
    functions: spec_fn(FunctionID) -> bool,
    id: u64,
) -> bool {
    match fetch {
        None => executable is None,
        Some(clause) => executable matches Some(compiled) && compiled.executable_id == id
            && fetch_outcome(clause.entries@, fetch_positions(mappings_of(stages)), functions)
            == Ok::<_, FetchCompilationError>(compiled.object_instruction@),
    }
}

/// How many identities compiling stages and fetch clause takes: one for
/// each stage, and one for the fetch clause.
pub open spec fn identities_taken(stages: Seq<AnnotatedStage>, fetch: Option<AnnotatedFetch>)
    -> nat {
    if fetch is Some {
        stages.len() + 1
    } else {
        stages.len()
    }
}

/// Compiles the stages of a pipeline, selecting every named variable, and
/// then its fetch clause against the rows of the last stage.
pub fn compile_stages_and_fetch(
    variable_registry: &VariableRegistry,
    available_functions: &ExecutableFunctionRegistry,
    annotated_stages: &Vec<AnnotatedStage>,
    annotated_fetch: &Option<AnnotatedFetch>,
    input_variables: &Vec<Variable>,
    ids: &mut ExecutableIds,
) -> (result: Result<
    (IdMap<Variable, VariablePosition>, Vec<ExecutableStage>, Option<ExecutableFetch>),
    ExecutableCompilationError,
>)
    requires
        variable_registry.wf(),
        input_variables@.len() <= u32::MAX + 1,
        pipeline_ready(
            annotated_stages@,
            variable_registry.names(),
            variable_registry.named_order(),
            initial_mapping(input_variables@),
        ),
    ensures
        match result {
            Ok((input_positions, executables, fetch)) => {
                &&& stages_and_fetch_failure(
                    annotated_stages@,
                    *annotated_fetch,
                    variable_registry.names(),
                    variable_registry.named_order(),
                    initial_mapping(input_variables@),
                    |id: FunctionID| available_functions.has(id),
                ) is None
                &&& input_positions.wf()
                &&& input_positions@ == initial_mapping(input_variables@)
                &&& pipeline_outcome(
                    annotated_stages@,
                    variable_registry.names(),
                    variable_registry.named_order(),
                    initial_mapping(input_variables@),
                ) == Ok::<_, ExecutableCompilationError>(mappings_of(executables@))
                &&& pipeline_compiled(
                    executables@,
                    annotated_stages@,
                    variable_registry.names(),
                    variable_registry.named_order(),
                    initial_mapping(input_variables@),
                    old(ids).upcoming(),
                )
                &&& fetch_compiled(
                    fetch,
                    *annotated_fetch,
                    executables@,
                    |id: FunctionID| available_functions.has(id),
                    nth_id(old(ids).upcoming(), annotated_stages@.len()),
                )
                &&& final(ids).upcoming() == nth_id(
                    old(ids).upcoming(),
                    identities_taken(annotated_stages@, *annotated_fetch),
                )
            },
            Err(error) => {
                &&& stages_and_fetch_failure(
                    annotated_stages@,
                    *annotated_fetch,
                    variable_registry.names(),
                    variable_registry.named_order(),
                    initial_mapping(input_variables@),
                    |id: FunctionID| available_functions.has(id),
                ) == Some(error)
                &&& exists|taken: nat|
                    taken <= annotated_stages@.len() && final(ids).upcoming() == nth_id(
                        old(ids).upcoming(),
                        taken,
                    )
            },
        },
{
    let selected_variables = variable_registry.variable_names().keys();
    let (input_positions, executable_stages) = match compile_pipeline_stages(
        variable_registry,
        annotated_stages,
        input_variables,
        &selected_variables,
        ids,
    ) {
        Ok(compiled) => compiled,
        Err(error) => {
            return Err(error);
        },
    };
    let count = executable_stages.len();
    let stages_variable_positions = if count == 0 {
        IdMap::new()
    } else {
        proof {
            assert(mappings_of(executable_stages@).last() == executable_stages@[count
                - 1].mapping());
        }
        executable_stages[count - 1].output_row_mapping()
    };
    let executable_fetch = match annotated_fetch {
        None => None,
        Some(fetch) => {
            match compile_fetch(available_functions, fetch, &stages_variable_positions, ids) {
                Ok(compiled) => Some(compiled),
                Err(source) => {
                    proof {
                        assert(count <= annotated_stages@.len() && ids.upcoming() == nth_id(
                            old(ids).upcoming(),
                            count as nat,
                        ));
                    }
                    return Err(ExecutableCompilationError::FetchCompilation { source });
                },
            }
        },
    };
    Ok((input_positions, executable_stages, executable_fetch))
}


/// The functions in the order of the given keys.
pub open spec fn functions_in_order(
    functions: Map<DefinitionKey, AnnotatedFunction>,
    order: Seq<DefinitionKey>,
) -> Seq<AnnotatedFunction> {
    order.map_values(|key: DefinitionKey| functions[key])
}

/// The error of the first of `functions` that fails to compile, if one
/// fails.
pub open spec fn first_function_failure(functions: Seq<AnnotatedFunction>) -> Option<
    ExecutableCompilationError,
>
    decreases functions.len(),
{
    if functions.len() == 0 {
        None
    } else {
        match first_function_failure(functions.drop_last()) {
            Some(error) => Some(error),
            None => function_failure(functions.last()),
        }
    }
}

/// The number of stages of all of `functions` together.
pub open spec fn stage_total(functions: Seq<AnnotatedFunction>) -> nat
    decreases functions.len(),
{
    if functions.len() == 0 {
        0
    } else {
        stage_total(functions.drop_last()) + functions.last().stages@.len()
    }
}

/// The failure of a prefix of the functions is the failure of all of them.
pub proof fn lemma_function_failure_extends(functions: Seq<AnnotatedFunction>, upto: int)
    requires
        0 <= upto <= functions.len(),
        first_function_failure(functions.take(upto)) is Some,
    ensures
        first_function_failure(functions) == first_function_failure(functions.take(upto)),
    decreases functions.len() - upto,
{
    if upto < functions.len() {
        let next = functions.take(upto + 1);
        assert(next.drop_last() =~= functions.take(upto));
        lemma_function_failure_extends(functions, upto + 1);
    } else {
        assert(functions.take(upto) =~= functions);
    }
}

/// Identities taken one after the other add up.
pub proof fn lemma_nth_id_add(first: u64, taken: nat, more: nat)
    ensures
        nth_id(nth_id(first, taken), more) == nth_id(first, taken + more),
    decreases more,
{
    if more > 0 {
        lemma_nth_id_add(first, taken, (more - 1) as nat);
    }
}

/// The callees of each function of a set of functions.
pub open spec fn function_call_lists(functions: Map<FunctionID, &AnnotatedFunction>) -> Map<
    FunctionID,
    Seq<FunctionID>,
> {
    functions.map_values(|function: &AnnotatedFunction| stages_calls(function.stages@))
}

/// For each of `functions`, whether it needs tabled evaluation: whether a
/// chain of calls among these functions leads from it back to it. Calls of
/// functions outside the set do not count.
pub fn determine_tabling_requirements(functions: &IdMap<FunctionID, &AnnotatedFunction>) -> (tabling:
    IdMap<FunctionID, bool>)
    requires
        functions.wf(),
    ensures
        tabling.wf(),
        tabling@.dom() == functions@.dom(),
        forall|id: FunctionID| #[trigger]
            functions@.contains_key(id) ==> tabling@[id] == is_recursive(
                function_call_lists(functions@),
                id,
            ),
{
    let ids = functions.keys();
    let mut graph: CallGraph = IdMap::new();
    let mut index: usize = 0;
    while index < ids.len()
        invariant
            index <= ids@.len(),
            functions.wf(),
            ids@.to_set() == functions@.dom(),
            graph.wf(),
            graph@.dom() == ids@.take(index as int).to_set(),
            forall|id: FunctionID| #[trigger]
                graph@.contains_key(id) ==> graph@[id]@ == stages_calls(functions@[id].stages@),
        decreases ids@.len() - index,
    {
        let id = ids[index];
        assert(ids@.to_set().contains(id));
        let function = *functions.get(&id).unwrap();
        graph.insert(id, function.calls());
        proof {
            let before = ids@.take(index as int);
            let upto = ids@.take(index + 1);
            assert(upto =~= before.push(id));
            assert forall|other: FunctionID|
                upto.to_set().contains(other) <==> before.to_set().insert(id).contains(
                    other,
                ) by {
                if upto.contains(other) {
                    let at = upto.index_of(other);
                    if at < index {
                        assert(before[at] == other);
                    }
                }
                if before.contains(other) {
                    let at = before.index_of(other);
                    assert(upto[at] == other);
                }
                assert(upto[index as int] == id);
            }
            assert(graph@.dom() =~= upto.to_set());
        }
        index += 1;
    }
    proof {
        assert(ids@.take(index as int) =~= ids@);
        assert(call_lists(&graph) =~= function_call_lists(functions@));
    }
    recursive_functions(&graph)
}


/// The callees of each schema function, under its identity.
pub open spec fn schema_call_lists(functions: Map<DefinitionKey, AnnotatedFunction>) -> Map<
    FunctionID,
    Seq<FunctionID>,
> {
    Map::new(
        |id: FunctionID| id matches FunctionID::Schema(key) && functions.contains_key(key),
        |id: FunctionID| stages_calls(functions[id->Schema_0].stages@),
    )
}

/// The callees of each preamble function, under its identity.
pub open spec fn preamble_call_lists(functions: Seq<AnnotatedFunction>) -> Map<
    FunctionID,
    Seq<FunctionID>,
> {
    Map::new(
        |id: FunctionID| id matches FunctionID::Preamble(index) && index < functions.len(),
        |id: FunctionID| stages_calls(functions[id->Preamble_0 as int].stages@),
    )
}

/// Whether a schema function needs tabled evaluation: whether it takes part
/// in a recursion among the schema functions.
pub open spec fn schema_function_tabled(
    functions: Map<DefinitionKey, AnnotatedFunction>,
    key: DefinitionKey,
) -> bool {
    is_recursive(schema_call_lists(functions), FunctionID::Schema(key))
}

/// Whether a preamble function needs tabled evaluation: whether it takes
/// part in a recursion among the preamble functions.
pub open spec fn preamble_function_tabled(functions: Seq<AnnotatedFunction>, index: usize) -> bool {
    is_recursive(preamble_call_lists(functions), FunctionID::Preamble(index))
}

/// Whether `executable` is the compilation of `function`, tabled as said,
/// under some identities.
pub open spec fn compiled_function_of(
    executable: ExecutableFunction,
    function: AnnotatedFunction,
    is_tabled: bool,
) -> bool {
    exists|first_id: u64| #[trigger] function_compiled(executable, function, is_tabled, first_id)
}

/// Compiles the schema functions in the order of their keys, each tabled as
/// the analysis of the schema functions says.
pub fn compile_schema_functions(
    annotated: &IdMap<DefinitionKey, AnnotatedFunction>,
    ids: &mut ExecutableIds,
) -> (result: Result<IdMap<DefinitionKey, ExecutableFunction>, ExecutableCompilationError>)
    requires
        annotated.wf(),
        forall|key: DefinitionKey| #[trigger]
            annotated@.contains_key(key) ==> function_ready(annotated@[key]),
    ensures
        match result {
            Ok(compiled) => {
                &&& first_function_failure(
                    functions_in_order(annotated@, annotated.key_order()),
                ) is None
                &&& compiled.wf()
                &&& compiled@.dom() == annotated@.dom()
                &&& forall|key: DefinitionKey| #[trigger]
                    annotated@.contains_key(key) ==> compiled_function_of(
                        compiled@[key],
                        annotated@[key],
                        schema_function_tabled(annotated@, key),
                    )
                &&& final(ids).upcoming() == nth_id(
                    old(ids).upcoming(),
                    stage_total(functions_in_order(annotated@, annotated.key_order())),
                )
            },
            Err(error) => {
                &&& first_function_failure(functions_in_order(annotated@, annotated.key_order()))
                    == Some(error)
                &&& exists|taken: nat| final(ids).upcoming() == nth_id(old(ids).upcoming(), taken)
            },
        },
{
    let keys = annotated.keys();
    let ghost order = functions_in_order(annotated@, keys@);
    // The schema functions as one set, for the analysis of their calls.
    let mut function_set: IdMap<FunctionID, &AnnotatedFunction> = IdMap::new();
    let mut made: usize = 0;
    while made < keys.len()
        invariant
            made <= keys@.len(),
            annotated.wf(),
            keys@.to_set() == annotated@.dom(),
            function_set.wf(),
            forall|id: FunctionID| #[trigger]
                function_set@.contains_key(id) <==> (id matches FunctionID::Schema(key)
                    && keys@.take(made as int).contains(key)),
            forall|id: FunctionID| #[trigger]
                function_set@.contains_key(id) ==> *function_set@[id]
                    == annotated@[id->Schema_0],
        decreases keys@.len() - made,
    {
        let key = keys[made];
        assert(keys@.to_set().contains(key));
        let function = annotated.get(&key).unwrap();
        function_set.insert(FunctionID::Schema(key), function);
        proof {
            let before = keys@.take(made as int);
            let upto = keys@.take(made + 1);
            assert(upto =~= before.push(key));
            assert forall|id: FunctionID| #[trigger]
                function_set@.contains_key(id) <==> (id matches FunctionID::Schema(other)
                    && upto.contains(other)) by {
                if let FunctionID::Schema(other) = id {
                    if upto.contains(other) {
                        let at = upto.index_of(other);
                        if at < made {
                            assert(before[at] == other);
                        }
                    }
                    if before.contains(other) {
                        let at = before.index_of(other);
                        assert(upto[at] == other);
                    }
                    assert(upto[made as int] == key);
                }
            }
        }
        made += 1;
    }
    proof {
        assert(keys@.take(made as int) =~= keys@);
        assert forall|id: FunctionID| #[trigger]
            function_set@.contains_key(id) <==> schema_call_lists(annotated@).contains_key(
                id,
            ) by {
            if let FunctionID::Schema(key) = id {
                assert(keys@.to_set().contains(key) <==> annotated@.contains_key(key));
            }
        }
        assert(function_call_lists(function_set@) =~= schema_call_lists(annotated@));
    }
    let tabling = determine_tabling_requirements(&function_set);
    let mut compiled: IdMap<DefinitionKey, ExecutableFunction> = IdMap::new();
    let mut index: usize = 0;
    proof {
        assert(order.take(0) =~= Seq::<AnnotatedFunction>::empty());
        assert forall|key: DefinitionKey| #[trigger]
            annotated@.contains_key(key) implies tabling@.contains_key(FunctionID::Schema(key))
            && tabling@[FunctionID::Schema(key)] == schema_function_tabled(annotated@, key) by {
            assert(schema_call_lists(annotated@).contains_key(FunctionID::Schema(key)));
            assert(function_set@.contains_key(FunctionID::Schema(key)));
        }
    }
    while index < keys.len()
        invariant
            index <= keys@.len(),
            annotated.wf(),
            keys@ == annotated.key_order(),
            keys@.to_set() == annotated@.dom(),
            order == functions_in_order(annotated@, keys@),
            forall|key: DefinitionKey| #[trigger]
                annotated@.contains_key(key) ==> function_ready(annotated@[key]),
            tabling.wf(),
            forall|key: DefinitionKey| #[trigger]
                annotated@.contains_key(key) ==> tabling@.contains_key(FunctionID::Schema(key))
                    && tabling@[FunctionID::Schema(key)] == schema_function_tabled(
                    annotated@,
                    key,
                ),
            compiled.wf(),
            compiled@.dom() == keys@.take(index as int).to_set(),
            forall|key: DefinitionKey| #[trigger]
                compiled@.contains_key(key) ==> compiled_function_of(
                    compiled@[key],
                    annotated@[key],
                    schema_function_tabled(annotated@, key),
                ),
            first_function_failure(order.take(index as int)) is None,
            ids.upcoming() == nth_id(old(ids).upcoming(), stage_total(order.take(index as int))),
        decreases keys@.len() - index,
    {
        let key = keys[index];
        assert(keys@.to_set().contains(key));
        let function = annotated.get(&key).unwrap();
        assert(annotated@.contains_key(key));
        let is_tabled = *tabling.get(&FunctionID::Schema(key)).unwrap();
        let ghost first_id = ids.upcoming();
        proof {
            let upto = order.take(index + 1);
            assert(upto.drop_last() =~= order.take(index as int));
            assert(upto.last() == annotated@[key]);
            lemma_nth_id_add(
                old(ids).upcoming(),
                stage_total(order.take(index as int)),
                function.stages@.len(),
            );
        }
        match compile_function(function, is_tabled, ids) {
            Ok(executable) => {
                assert(function_compiled(executable, *function, is_tabled, first_id));
                compiled.insert(key, executable);
                proof {
                    let before = keys@.take(index as int);
                    let upto = keys@.take(index + 1);
                    assert(upto =~= before.push(key));
                    assert forall|other: DefinitionKey|
                        upto.to_set().contains(other) <==> before.to_set().insert(key).contains(
                            other,
                        ) by {
                        if upto.contains(other) {
                            let at = upto.index_of(other);
                            if at < index {
                                assert(before[at] == other);
                            }
                        }
                        if before.contains(other) {
                            let at = before.index_of(other);
                            assert(upto[at] == other);
                        }
                        assert(upto[index as int] == key);
                    }
                    assert(compiled@.dom() =~= upto.to_set());
                }
            },
            Err(error) => {
                proof {
                    lemma_function_failure_extends(order, index + 1);
                    let taken = choose|taken: nat|
                        taken < function.stages@.len() && ids.upcoming() == nth_id(
                            first_id,
                            taken,
                        );
                    lemma_nth_id_add(
                        old(ids).upcoming(),
                        stage_total(order.take(index as int)),
                        taken,
                    );
                }
                return Err(error);
            },
        }
        index += 1;
    }
    proof {
        assert(keys@.take(index as int) =~= keys@);
        assert(order.take(index as int) =~= order);
    }
    Ok(compiled)
}

/// Compiles the preamble functions in order, each under its index and
/// tabled as the analysis of the preamble functions says.
pub fn compile_preamble_functions(annotated: &Vec<AnnotatedFunction>, ids: &mut ExecutableIds) -> (result:
    Result<IdMap<usize, ExecutableFunction>, ExecutableCompilationError>)
    requires
        forall|i: int| 0 <= i < annotated@.len() ==> function_ready(#[trigger] annotated@[i]),
    ensures
        match result {
            Ok(compiled) => {
                &&& first_function_failure(annotated@) is None
                &&& compiled.wf()
                &&& forall|index: usize| #[trigger]
                    compiled@.contains_key(index) <==> index < annotated@.len()
                &&& forall|index: usize|
                    index < annotated@.len() ==> compiled_function_of(
                        #[trigger] compiled@[index],
                        annotated@[index as int],
                        preamble_function_tabled(annotated@, index),
                    )
                &&& final(ids).upcoming() == nth_id(old(ids).upcoming(), stage_total(annotated@))
            },
            Err(error) => {
                &&& first_function_failure(annotated@) == Some(error)
                &&& exists|taken: nat| final(ids).upcoming() == nth_id(old(ids).upcoming(), taken)
            },
        },
{
    let mut function_set: IdMap<FunctionID, &AnnotatedFunction> = IdMap::new();
    let mut made: usize = 0;
    while made < annotated.len()
        invariant
            made <= annotated@.len(),
            function_set.wf(),
            forall|id: FunctionID| #[trigger]
                function_set@.contains_key(id) <==> (id matches FunctionID::Preamble(index)
                    && index < made),
            forall|id: FunctionID| #[trigger]
                function_set@.contains_key(id) ==> *function_set@[id]
                    == annotated@[id->Preamble_0 as int],
        decreases annotated@.len() - made,
    {
        function_set.insert(FunctionID::Preamble(made), &annotated[made]);
        made += 1;
    }
    proof {
        assert(function_set@.dom() =~= preamble_call_lists(annotated@).dom());
        assert(function_call_lists(function_set@) =~= preamble_call_lists(annotated@));
    }
    let tabling = determine_tabling_requirements(&function_set);
    let mut compiled: IdMap<usize, ExecutableFunction> = IdMap::new();
    let mut index: usize = 0;
    proof {
        assert(annotated@.take(0) =~= Seq::<AnnotatedFunction>::empty());
        assert forall|at: usize| at < annotated@.len() implies tabling@.contains_key(
            FunctionID::Preamble(at),
        ) && tabling@[FunctionID::Preamble(at)] == #[trigger] preamble_function_tabled(
            annotated@,
            at,
        ) by {
            assert(function_set@.contains_key(FunctionID::Preamble(at)));
        }
    }
    while index < annotated.len()
        invariant
            index <= annotated@.len(),
            forall|i: int| 0 <= i < annotated@.len() ==> function_ready(#[trigger] annotated@[i]),
            tabling.wf(),
            forall|at: usize|
                at < annotated@.len() ==> tabling@.contains_key(FunctionID::Preamble(at))
                    && tabling@[FunctionID::Preamble(at)] == #[trigger] preamble_function_tabled(
                    annotated@,
                    at,
                ),
            compiled.wf(),
            forall|at: usize| #[trigger] compiled@.contains_key(at) <==> at < index,
            forall|at: usize|
                at < index ==> compiled_function_of(
                    #[trigger] compiled@[at],
                    annotated@[at as int],
                    preamble_function_tabled(annotated@, at),
                ),
            first_function_failure(annotated@.take(index as int)) is None,
            ids.upcoming() == nth_id(
                old(ids).upcoming(),
                stage_total(annotated@.take(index as int)),
            ),
        decreases annotated@.len() - index,
    {
        let function = &annotated[index];
        assert(tabling@[FunctionID::Preamble(index)] == preamble_function_tabled(
            annotated@,
            index,
        ));
        let is_tabled = *tabling.get(&FunctionID::Preamble(index)).unwrap();
        let ghost first_id = ids.upcoming();
        proof {
            let upto = annotated@.take(index + 1);
            assert(upto.drop_last() =~= annotated@.take(index as int));
            assert(upto.last() == annotated@[index as int]);
            lemma_nth_id_add(
                old(ids).upcoming(),
                stage_total(annotated@.take(index as int)),
                function.stages@.len(),
            );
        }
        match compile_function(function, is_tabled, ids) {
            Ok(executable) => {
                assert(function_compiled(executable, *function, is_tabled, first_id));
                compiled.insert(index, executable);
            },
            Err(error) => {
                proof {
                    lemma_function_failure_extends(annotated@, index + 1);
                    let taken = choose|taken: nat|
                        taken < function.stages@.len() && ids.upcoming() == nth_id(
                            first_id,
                            taken,
                        );
                    lemma_nth_id_add(
                        old(ids).upcoming(),
                        stage_total(annotated@.take(index as int)),
                        taken,
                    );
                }
                return Err(error);
            },
        }
        index += 1;
    }
    proof {
        assert(annotated@.take(index as int) =~= annotated@);
    }
    Ok(compiled)
}


/// Which functions a query declares: the schema functions and the functions
/// of its preamble.
pub open spec fn declared_functions(
    schema_functions: Map<DefinitionKey, AnnotatedFunction>,
    preamble: Seq<AnnotatedFunction>,
) -> spec_fn(FunctionID) -> bool {
    |id: FunctionID|
        match id {
            FunctionID::Schema(key) => schema_functions.contains_key(key),
            FunctionID::Preamble(index) => index < preamble.len(),
        }
}

/// The error that compiling a query ends in, if it ends in one: that of the
/// first schema function that fails, in the order of their keys; else that
/// of the first preamble function that fails; else that of the stages and
/// the fetch clause.
pub open spec fn pipeline_failure(
    schema_functions: Map<DefinitionKey, AnnotatedFunction>,
    schema_order: Seq<DefinitionKey>,
    preamble: Seq<AnnotatedFunction>,
    stages: Seq<AnnotatedStage>,
    fetch: Option<AnnotatedFetch>,
    names: Map<Variable, Seq<char>>,
    selected: Seq<Variable>,
    input: Map<Variable, VariablePosition>,
) -> Option<ExecutableCompilationError> {
    match first_function_failure(functions_in_order(schema_functions, schema_order)) {
        Some(error) => Some(error),
        None => match first_function_failure(preamble) {
            Some(error) => Some(error),
            None => stages_and_fetch_failure(
                stages,
                fetch,
                names,
                selected,
                input,
                declared_functions(schema_functions, preamble),
            ),
        },
    }
}

/// The identity of the first stage of a query: the one after the
/// identities of the stages of its functions.
pub open spec fn first_stage_id(
    schema_functions: Map<DefinitionKey, AnnotatedFunction>,
    schema_order: Seq<DefinitionKey>,
    preamble: Seq<AnnotatedFunction>,
    first_id: u64,
) -> u64 {
    nth_id(
        first_id,
        stage_total(functions_in_order(schema_functions, schema_order)) + stage_total(preamble),
    )
}

/// Compiles a query.
///
/// The schema functions are compiled first, each tabled if it takes part in
/// a recursion among them; then the functions of the preamble, each tabled
/// if it takes part in a recursion among the preamble functions; then the
/// stages, on rows that hold the input variables in the order given and
/// selecting every named variable; and at last the fetch clause, against the
/// rows of the last stage. The first error ends the compilation.
pub fn compile_pipeline(
    variable_registry: &VariableRegistry,
    annotated_schema_functions: &IdMap<DefinitionKey, AnnotatedFunction>,
    annotated_preamble: &Vec<AnnotatedFunction>,
    annotated_stages: &Vec<AnnotatedStage>,
    annotated_fetch: &Option<AnnotatedFetch>,
    input_variables: &Vec<Variable>,
    ids: &mut ExecutableIds,
) -> (result: Result<ExecutablePipeline, ExecutableCompilationError>)
    requires
        variable_registry.wf(),
        annotated_schema_functions.wf(),
        forall|key: DefinitionKey| #[trigger]
            annotated_schema_functions@.contains_key(key) ==> function_ready(
                annotated_schema_functions@[key],
            ),
        forall|i: int|
            0 <= i < annotated_preamble@.len() ==> function_ready(#[trigger] annotated_preamble@[i]),
        input_variables@.len() <= u32::MAX + 1,
        pipeline_ready(
            annotated_stages@,
            variable_registry.names(),
            variable_registry.named_order(),
            initial_mapping(input_variables@),
        ),
    ensures
        match result {
            Ok(pipeline) => {
                &&& pipeline_failure(
                    annotated_schema_functions@,
                    annotated_schema_functions.key_order(),
                    annotated_preamble@,
                    annotated_stages@,
                    *annotated_fetch,
                    variable_registry.names(),
                    variable_registry.named_order(),
                    initial_mapping(input_variables@),
                ) is None
                &&& pipeline.executable_functions.wf()
                &&& forall|id: FunctionID|
                    pipeline.executable_functions.has(id) == declared_functions(
                        annotated_schema_functions@,
                        annotated_preamble@,
                    )(id)
                &&& forall|key: DefinitionKey| #[trigger]
                    annotated_schema_functions@.contains_key(key) ==> compiled_function_of(
                        pipeline.executable_functions.schema()[key],
                        annotated_schema_functions@[key],
                        schema_function_tabled(annotated_schema_functions@, key),
                    )
                &&& forall|index: usize|
                    index < annotated_preamble@.len() ==> compiled_function_of(
                        #[trigger] pipeline.executable_functions.preamble()[index],
                        annotated_preamble@[index as int],
                        preamble_function_tabled(annotated_preamble@, index),
                    )
                &&& pipeline_outcome(
                    annotated_stages@,
                    variable_registry.names(),
                    variable_registry.named_order(),
                    initial_mapping(input_variables@),
                ) == Ok::<_, ExecutableCompilationError>(mappings_of(pipeline.executable_stages@))
                &&& pipeline_compiled(
                    pipeline.executable_stages@,
                    annotated_stages@,
                    variable_registry.names(),
                    variable_registry.named_order(),
                    initial_mapping(input_variables@),
                    first_stage_id(
                        annotated_schema_functions@,
                        annotated_schema_functions.key_order(),
                        annotated_preamble@,
                        old(ids).upcoming(),
                    ),
                )
                &&& fetch_compiled(
                    pipeline.executable_fetch,
                    *annotated_fetch,
                    pipeline.executable_stages@,
                    declared_functions(annotated_schema_functions@, annotated_preamble@),
                    nth_id(
                        first_stage_id(
                            annotated_schema_functions@,
                            annotated_schema_functions.key_order(),
                            annotated_preamble@,
                            old(ids).upcoming(),
                        ),
                        annotated_stages@.len(),
                    ),
                )
                &&& final(ids).upcoming() == nth_id(
                    first_stage_id(
                        annotated_schema_functions@,
                        annotated_schema_functions.key_order(),
                        annotated_preamble@,
                        old(ids).upcoming(),
                    ),
                    identities_taken(annotated_stages@, *annotated_fetch),
                )
            },
            Err(error) => {
                &&& pipeline_failure(
                    annotated_schema_functions@,
                    annotated_schema_functions.key_order(),
                    annotated_preamble@,
                    annotated_stages@,
                    *annotated_fetch,
                    variable_registry.names(),
                    variable_registry.named_order(),
                    initial_mapping(input_variables@),
                ) == Some(error)
                &&& exists|taken: nat| final(ids).upcoming() == nth_id(old(ids).upcoming(), taken)
            },
        },
{
    let ghost schema_order = functions_in_order(
        annotated_schema_functions@,
        annotated_schema_functions.key_order(),
    );
    let ghost declared = declared_functions(annotated_schema_functions@, annotated_preamble@);
    let executable_schema_functions = match compile_schema_functions(
        annotated_schema_functions,
        ids,
    ) {
        Ok(compiled) => compiled,
        Err(error) => {
            return Err(error);
        },
    };
    let ghost after_schema = ids.upcoming();
    let executable_preamble_functions = match compile_preamble_functions(annotated_preamble, ids) {
        Ok(compiled) => compiled,
        Err(error) => {
            proof {
                let taken = choose|taken: nat| ids.upcoming() == nth_id(after_schema, taken);
                lemma_nth_id_add(old(ids).upcoming(), stage_total(schema_order), taken);
            }
            return Err(error);
        },
    };
    let ghost first_stage = ids.upcoming();
    proof {
        lemma_nth_id_add(
            old(ids).upcoming(),
            stage_total(schema_order),
            stage_total(annotated_preamble@),
        );
    }
    let schema_and_preamble_functions = ExecutableFunctionRegistry::new(
        executable_schema_functions,
        executable_preamble_functions,
    );
    proof {
        let held = |id: FunctionID| schema_and_preamble_functions.has(id);
        assert forall|id: FunctionID| #[trigger] held(id) == declared(id) by {
            match id {
                FunctionID::Schema(key) => {},
                FunctionID::Preamble(index) => {},
            }
        }
        assert(held =~= declared);
    }
    match compile_stages_and_fetch(
        variable_registry,
        &schema_and_preamble_functions,
        annotated_stages,
        annotated_fetch,
        input_variables,
        ids,
    ) {
        Ok((_input_positions, executable_stages, executable_fetch)) => {
            Ok(
                ExecutablePipeline {
                    executable_functions: schema_and_preamble_functions,
                    executable_stages,
                    executable_fetch,
                },
            )
        },
        Err(error) => {
            proof {
                let taken = choose|taken: nat|
                    taken <= annotated_stages@.len() && ids.upcoming() == nth_id(
                        first_stage,
                        taken,
                    );
                lemma_nth_id_add(
                    old(ids).upcoming(),
                    stage_total(schema_order) + stage_total(annotated_preamble@),
                    taken,
                );
            }
            Err(error)
        },
    }
}

} // verus!
