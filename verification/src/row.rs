//! Row layouts: which variable stands at which position of a row.

use crate::id_map::IdMap;
use crate::variable::{Variable, VariablePosition};
use vstd::prelude::*;

verus! {

/// Whether every position of the mapping is below `width`.
pub open spec fn positions_below(mapping: Map<Variable, VariablePosition>, width: nat) -> bool {
    forall|variable: Variable| #[trigger]
        mapping.contains_key(variable) ==> mapping[variable].position < width
}

/// The width of the rows that a mapping describes: the least number that is
/// above all its positions.
pub open spec fn row_width(mapping: Map<Variable, VariablePosition>) -> nat {
    choose|width: nat|
        positions_below(mapping, width) && forall|other: nat| #[trigger]
            positions_below(mapping, other) ==> width <= other
}

/// A bound that some position reaches, or zero, is the width.
pub proof fn lemma_row_width_is(mapping: Map<Variable, VariablePosition>, width: nat)
    requires
        positions_below(mapping, width),
        width == 0 || exists|variable: Variable| #[trigger]
            mapping.contains_key(variable) && mapping[variable].position == width - 1,
    ensures
        row_width(mapping) == width,
{
    assert forall|other: nat| #[trigger] positions_below(mapping, other) implies width
        <= other by {
        if width > 0 {
            let variable = choose|variable: Variable| #[trigger]
                mapping.contains_key(variable) && mapping[variable].position == width - 1;
            assert(mapping.contains_key(variable));
        }
    }
    let chosen = row_width(mapping);
    assert(positions_below(mapping, chosen));
}

/// Every position lies below the width, and the width is at most one above
/// the largest position there can be.
pub proof fn lemma_row_width_bounds(mapping: Map<Variable, VariablePosition>)
    ensures
        positions_below(mapping, row_width(mapping)),
        row_width(mapping) <= u32::MAX + 1,
{
    let top: nat = (u32::MAX + 1) as nat;
    assert(positions_below(mapping, top));
    // Among the bounds there is a least one: search downwards from `top`.
    lemma_least_bound(mapping, top);
}

/// Below any bound there is a least bound, and `row_width` is it.
proof fn lemma_least_bound(mapping: Map<Variable, VariablePosition>, bound: nat)
    requires
        positions_below(mapping, bound),
    ensures
        positions_below(mapping, row_width(mapping)),
        row_width(mapping) <= bound,
    decreases bound,
{
    if bound == 0 {
        lemma_row_width_is(mapping, 0);
    } else if positions_below(mapping, (bound - 1) as nat) {
        lemma_least_bound(mapping, (bound - 1) as nat);
    } else {
        let variable = choose|variable: Variable| #[trigger]
            mapping.contains_key(variable) && !(mapping[variable].position < bound - 1);
        assert(mapping[variable].position == bound - 1);
        lemma_row_width_is(mapping, bound);
    }
}

/// Placing a new variable at the width makes the rows one wider.
pub proof fn lemma_row_width_extended(
    mapping: Map<Variable, VariablePosition>,
    variable: Variable,
    position: VariablePosition,
)
    requires
        position.position == row_width(mapping),
    ensures
        row_width(mapping.insert(variable, position)) == row_width(mapping) + 1,
{
    lemma_row_width_bounds(mapping);
    let extended = mapping.insert(variable, position);
    let width = row_width(mapping) + 1;
    assert(extended.contains_key(variable) && extended[variable].position == width - 1);
    assert forall|other: Variable| #[trigger] extended.contains_key(other) implies extended[other].position
        < width by {
        if other != variable {
            assert(mapping.contains_key(other));
        }
    }
    lemma_row_width_is(extended, width as nat);
}

/// The width of the rows that `mapping` describes.
pub fn width_of(mapping: &IdMap<Variable, VariablePosition>) -> (width: u64)
    requires
        mapping.wf(),
    ensures
        width == row_width(mapping@),
{
    let keys = mapping.keys();
    let mut width: u64 = 0;
    let mut index: usize = 0;
    while index < keys.len()
        invariant
            mapping.wf(),
            index <= keys@.len(),
            keys@.to_set() == mapping@.dom(),
            width <= u32::MAX + 1,
            forall|i: int|
                0 <= i < index ==> (#[trigger] mapping@[keys@[i]]).position < width,
            width == 0 || exists|i: int|
                0 <= i < index && (#[trigger] mapping@[keys@[i]]).position == width - 1,
        decreases keys@.len() - index,
    {
        let key = keys[index];
        assert(keys@.to_set().contains(key));
        let position = mapping.get(&key).unwrap().position;
        if position as u64 >= width {
            width = position as u64 + 1;
            assert(mapping@[keys@[index as int]].position == width - 1);
        } else {
            let ghost at = choose|i: int|
                0 <= i < index && (#[trigger] mapping@[keys@[i]]).position == width - 1;
            assert(0 <= at < index + 1 && mapping@[keys@[at]].position == width - 1);
        }
        index += 1;
    }
    proof {
        assert forall|variable: Variable| #[trigger]
            mapping@.contains_key(variable) implies mapping@[variable].position < width by {
            assert(keys@.to_set().contains(variable));
            let at = keys@.index_of(variable);
            assert(mapping@[keys@[at]].position < width);
        }
        if width > 0 {
            let at = choose|i: int|
                0 <= i < index && (#[trigger] mapping@[keys@[i]]).position == width - 1;
            assert(keys@.to_set().contains(keys@[at]));
            assert(mapping@.contains_key(keys@[at]));
        }
        lemma_row_width_is(mapping@, width as nat);
    }
    width
}


/// Whether no two variables share a position.
pub open spec fn injective(mapping: Map<Variable, VariablePosition>) -> bool {
    forall|one: Variable, other: Variable|
        mapping.contains_key(one) && mapping.contains_key(other) && #[trigger] mapping[one]
            == #[trigger] mapping[other] ==> one == other
}

/// The variable that stands at `position`, if there is one.
pub open spec fn variable_at(mapping: Map<Variable, VariablePosition>, position: int) -> Option<
    Variable,
> {
    if exists|variable: Variable| #[trigger]
        mapping.contains_key(variable) && mapping[variable].position == position {
        Some(
            choose|variable: Variable| #[trigger]
                mapping.contains_key(variable) && mapping[variable].position == position,
        )
    } else {
        None
    }
}

/// The row that a mapping describes: at each position the variable that
/// stands there.
pub open spec fn row_of(mapping: Map<Variable, VariablePosition>) -> Seq<Option<Variable>> {
    Seq::new(row_width(mapping), |position: int| variable_at(mapping, position))
}

/// The row that is built by writing the variables of `order` one after the
/// other, each at its position.
spec fn row_in_order(
    order: Seq<Variable>,
    mapping: Map<Variable, VariablePosition>,
    width: nat,
) -> Seq<Option<Variable>>
    decreases order.len(),
{
    if order.len() == 0 {
        Seq::new(width, |i: int| None)
    } else {
        let front = row_in_order(order.drop_last(), mapping, width);
        let position = mapping[order.last()].position as int;
        if position < width {
            front.update(position, Some(order.last()))
        } else {
            front
        }
    }
}

/// A row is as wide as asked, and shows only variables of the order, each at
/// its own position.
proof fn lemma_row_in_order(
    order: Seq<Variable>,
    mapping: Map<Variable, VariablePosition>,
    width: nat,
)
    ensures
        row_in_order(order, mapping, width).len() == width,
        forall|i: int|
            0 <= i < width ==> ((#[trigger] row_in_order(order, mapping, width)[i]) matches Some(
                variable,
            ) ==> order.contains(variable) && mapping[variable].position == i),
        forall|j: int|
            0 <= j < order.len() && mapping[#[trigger] order[j]].position < width
                ==> row_in_order(order, mapping, width)[mapping[order[j]].position as int] is Some,
    decreases order.len(),
{
    if order.len() > 0 {
        let front = order.drop_last();
        lemma_row_in_order(front, mapping, width);
        let row = row_in_order(order, mapping, width);
        assert forall|i: int| 0 <= i < width implies ((#[trigger] row[i]) matches Some(variable)
            ==> order.contains(variable) && mapping[variable].position == i) by {
            if let Some(variable) = row[i] {
                if variable == order.last() && mapping[order.last()].position == i {
                    assert(order[order.len() - 1] == variable);
                } else {
                    assert(row_in_order(front, mapping, width)[i] == Some(variable));
                    assert(front.contains(variable));
                    let at = front.index_of(variable);
                    assert(order[at] == variable);
                }
            }
        }
        assert forall|j: int|
            0 <= j < order.len() && mapping[#[trigger] order[j]].position < width implies row[mapping[order[j]].position as int] is Some by {
            if j < order.len() - 1 {
                assert(front[j] == order[j]);
            }
        }
    }
}

/// The row that `mapping` describes, with its variables in insertion order.
pub fn input_row(mapping: &IdMap<Variable, VariablePosition>) -> (row: Vec<Option<Variable>>)
    requires
        mapping.wf(),
        injective(mapping@),
    ensures
        row@ == row_of(mapping@),
{
    let width = width_of(mapping);
    let mut row: Vec<Option<Variable>> = Vec::new();
    let mut made: u64 = 0;
    while made < width
        invariant
            made <= width,
            row@ == Seq::new(made as nat, |i: int| None::<Variable>),
        decreases width - made,
    {
        row.push(None);
        made += 1;
        assert(row@ =~= Seq::new(made as nat, |i: int| None::<Variable>));
    }
    let keys = mapping.keys();
    let mut index: usize = 0;
    proof {
        lemma_row_width_bounds(mapping@);
        assert(keys@.take(0) =~= Seq::<Variable>::empty());
    }
    while index < keys.len()
        invariant
            mapping.wf(),
            index <= keys@.len(),
            keys@ == mapping.key_order(),
            keys@.to_set() == mapping@.dom(),
            width == row_width(mapping@),
            forall|variable: Variable| #[trigger]
                mapping@.contains_key(variable) ==> mapping@[variable].position < width,
            row@ == row_in_order(keys@.take(index as int), mapping@, width as nat),
            row@.len() == width,
        decreases keys@.len() - index,
    {
        let key = keys[index];
        assert(keys@.to_set().contains(key));
        assert(mapping@.contains_key(key));
        let position = mapping.get(&key).unwrap().position;
        let ghost before = row@;
        row.set(position as usize, Some(key));
        proof {
            let upto = keys@.take(index + 1);
            assert(upto.drop_last() =~= keys@.take(index as int));
            assert(upto.last() == key);
            assert(row@ == before.update(position as int, Some(key)));
            lemma_row_in_order_step(upto, mapping@, width as nat);
        }
        index += 1;
    }
    proof {
        assert(keys@.take(index as int) =~= keys@);
        mapping.lemma_key_order();
        lemma_row_in_order_is_row_of(keys@, mapping@);
        assert(row@ =~= row_of(mapping@));
    }
    row
}

/// Where no two variables share a position, the row that is built in any
/// order of the variables is the row of the mapping.
proof fn lemma_row_in_order_is_row_of(order: Seq<Variable>, mapping: Map<Variable, VariablePosition>)
    requires
        injective(mapping),
        order.to_set() == mapping.dom(),
    ensures
        row_in_order(order, mapping, row_width(mapping)) == row_of(mapping),
{
    let width = row_width(mapping);
    let row = row_in_order(order, mapping, width);
    lemma_row_width_bounds(mapping);
    lemma_row_in_order(order, mapping, width);
    assert forall|position: int| 0 <= position < width implies row[position] == variable_at(
        mapping,
        position,
    ) by {
        match row[position] {
            Some(variable) => {
                assert(order.to_set().contains(variable));
                assert(mapping.contains_key(variable));
                let chosen = variable_at(mapping, position).unwrap();
                assert(mapping[chosen] == mapping[variable]);
            },
            None => {
                if exists|variable: Variable| #[trigger]
                    mapping.contains_key(variable) && mapping[variable].position == position {
                    let variable = choose|variable: Variable| #[trigger]
                        mapping.contains_key(variable) && mapping[variable].position == position;
                    assert(order.to_set().contains(variable));
                    let at = order.index_of(variable);
                    assert(mapping[order[at]].position < width);
                }
            },
        }
    }
    assert(row =~= row_of(mapping));
}

/// One step of building a row: the last variable of the order is written
/// over what the others left.
proof fn lemma_row_in_order_step(
    order: Seq<Variable>,
    mapping: Map<Variable, VariablePosition>,
    width: nat,
)
    requires
        order.len() > 0,
        mapping[order.last()].position < width,
    ensures
        row_in_order(order, mapping, width) == row_in_order(order.drop_last(), mapping, width).update(
            mapping[order.last()].position as int,
            Some(order.last()),
        ),
{
}

/// Whether `variable` occurs in `variables`.
pub fn contains_variable(variables: &Vec<Variable>, variable: Variable) -> (found: bool)
    ensures
        found == variables@.contains(variable),
{
    let mut index: usize = 0;
    while index < variables.len()
        invariant
            index <= variables@.len(),
            forall|j: int| 0 <= j < index ==> variables@[j] != variable,
        decreases variables@.len() - index,
    {
        if variables[index] == variable {
            return true;
        }
        index += 1;
    }
    false
}


/// The variables that a row shows, from the first position on.
pub open spec fn present(row: Seq<Option<Variable>>) -> Seq<Variable>
    decreases row.len(),
{
    if row.len() == 0 {
        Seq::empty()
    } else {
        let front = present(row.drop_last());
        match row.last() {
            Some(variable) => front.push(variable),
            None => front,
        }
    }
}

/// The present variables of a row are the variables of its slots.
pub proof fn lemma_present(row: Seq<Option<Variable>>)
    ensures
        forall|variable: Variable|
            #![trigger present(row).contains(variable)]
            #![trigger row.contains(Some(variable))]
            present(row).contains(variable) <==> row.contains(Some(variable)),
    decreases row.len(),
{
    if row.len() > 0 {
        let front = row.drop_last();
        lemma_present(front);
        assert forall|variable: Variable|
            #![trigger present(row).contains(variable)]
            #![trigger row.contains(Some(variable))]
            present(row).contains(variable) <==> row.contains(Some(variable)) by {
            if present(row).contains(variable) {
                let at = present(row).index_of(variable);
                if at < present(front).len() {
                    assert(present(front)[at] == variable);
                    assert(present(front).contains(variable));
                    assert(front.contains(Some(variable)));
                    let from = front.index_of(Some(variable));
                    assert(row[from] == Some(variable));
                } else {
                    assert(row[row.len() - 1] == Some(variable));
                }
            }
            if row.contains(Some(variable)) {
                let from = row.index_of(Some(variable));
                if from < front.len() {
                    assert(front[from] == Some(variable));
                    assert(present(front).contains(variable));
                    let at = present(front).index_of(variable);
                    assert(present(row)[at] == variable);
                } else {
                    assert(present(row)[present(row).len() - 1] == variable);
                }
            }
        }
    }
}

/// The mapping that a row publishes: each variable of a slot is mapped to
/// the position of the slot; of two slots with one variable the later one
/// counts.
pub open spec fn schema_mapping(slots: Seq<Option<Variable>>) -> Map<Variable, VariablePosition>
    decreases slots.len(),
{
    if slots.len() == 0 {
        Map::empty()
    } else {
        let front = schema_mapping(slots.drop_last());
        match slots.last() {
            Some(variable) => front.insert(
                variable,
                VariablePosition { position: (slots.len() - 1) as u32 },
            ),
            None => front,
        }
    }
}

/// The mapping of a row maps exactly the variables of its slots, each to a
/// slot that holds it, and no two to the same slot.
pub proof fn lemma_schema_mapping(slots: Seq<Option<Variable>>)
    requires
        slots.len() <= u32::MAX + 1,
    ensures
        forall|variable: Variable| #[trigger]
            schema_mapping(slots).contains_key(variable) <==> slots.contains(Some(variable)),
        forall|variable: Variable| #[trigger]
            schema_mapping(slots).contains_key(variable) ==> schema_mapping(
                slots,
            )[variable].position < slots.len() && slots[schema_mapping(
                slots,
            )[variable].position as int] == Some(variable),
        forall|i: int|
            0 <= i < slots.len() && (#[trigger] slots[i]) is Some && (forall|j: int|
                i < j < slots.len() ==> slots[j] != slots[i]) ==> schema_mapping(
                slots,
            )[slots[i].unwrap()].position == i,
        injective(schema_mapping(slots)),
        positions_below(schema_mapping(slots), slots.len()),
        schema_mapping(slots).dom().finite(),
    decreases slots.len(),
{
    if slots.len() > 0 {
        let front = slots.drop_last();
        lemma_schema_mapping(front);
        let mapping = schema_mapping(slots);
        let last = (slots.len() - 1) as int;
        assert forall|variable: Variable| #[trigger]
            mapping.contains_key(variable) <==> slots.contains(Some(variable)) by {
            if slots.contains(Some(variable)) {
                let from = slots.index_of(Some(variable));
                if from < last {
                    assert(front[from] == Some(variable));
                    assert(front.contains(Some(variable)));
                }
            }
            if schema_mapping(front).contains_key(variable) {
                let from = front.index_of(Some(variable));
                assert(slots[from] == Some(variable));
            }
            assert(slots[last] == slots.last());
        }
        assert forall|variable: Variable| #[trigger]
            mapping.contains_key(variable) implies mapping[variable].position < slots.len()
            && slots[mapping[variable].position as int] == Some(variable) by {
            if slots.last() == Some(variable) {
            } else {
                assert(schema_mapping(front).contains_key(variable));
                assert(front[schema_mapping(front)[variable].position as int] == Some(variable));
            }
        }
        assert forall|i: int|
            0 <= i < slots.len() && (#[trigger] slots[i]) is Some && (forall|j: int|
                i < j < slots.len() ==> slots[j] != slots[i]) implies mapping[slots[i].unwrap()].position
            == i by {
            if i < last {
                assert(front[i] == slots[i]);
                assert(slots[last] != slots[i]);
                assert forall|j: int| i < j < front.len() implies front[j] != front[i] by {
                    assert(front[j] == slots[j]);
                }
            }
        }
        assert forall|one: Variable, other: Variable|
            mapping.contains_key(one) && mapping.contains_key(other) && #[trigger] mapping[one]
                == #[trigger] mapping[other] implies one == other by {
            assert(slots[mapping[one].position as int] == Some(one));
            assert(slots[mapping[other].position as int] == Some(other));
        }
    }
}

/// The variables that `row` shows, from the first position on.
pub fn present_variables(row: &Vec<Option<Variable>>) -> (variables: Vec<Variable>)
    ensures
        variables@ == present(row@),
{
    let mut variables: Vec<Variable> = Vec::new();
    let mut index: usize = 0;
    while index < row.len()
        invariant
            index <= row@.len(),
            variables@ == present(row@.take(index as int)),
        decreases row@.len() - index,
    {
        proof {
            let upto = row@.take(index + 1);
            assert(upto.drop_last() =~= row@.take(index as int));
            assert(upto.last() == row@[index as int]);
        }
        if let Some(variable) = row[index] {
            variables.push(variable);
        }
        index += 1;
    }
    proof {
        assert(row@.take(index as int) =~= row@);
    }
    variables
}

/// The mapping that the row `slots` publishes.
pub fn mapping_of_schema(slots: &Vec<Option<Variable>>) -> (mapping: IdMap<
    Variable,
    VariablePosition,
>)
    requires
        slots@.len() <= u32::MAX + 1,
    ensures
        mapping.wf(),
        mapping@ == schema_mapping(slots@),
        injective(mapping@),
{
    let mut mapping: IdMap<Variable, VariablePosition> = IdMap::new();
    let mut index: usize = 0;
    while index < slots.len()
        invariant
            index <= slots@.len(),
            slots@.len() <= u32::MAX + 1,
            mapping.wf(),
            mapping@ == schema_mapping(slots@.take(index as int)),
        decreases slots@.len() - index,
    {
        proof {
            let upto = slots@.take(index + 1);
            assert(upto.drop_last() =~= slots@.take(index as int));
            assert(upto.last() == slots@[index as int]);
        }
        if let Some(variable) = slots[index] {
            mapping.insert(variable, VariablePosition::new(index as u32));
        }
        index += 1;
    }
    proof {
        assert(slots@.take(index as int) =~= slots@);
        lemma_schema_mapping(slots@);
    }
    mapping
}

} // verus!
