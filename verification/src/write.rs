//! Insert and delete stages: what they need of their input rows, and the rows
//! they hand on.

use crate::concept::{kind_of, Kind, Type};
use crate::executable_id::{id_after, next_executable_id, ExecutableIds};
use crate::id_map::IdMap;
use crate::pattern::Constraint;
use crate::row::{
    contains_variable, injective, input_row, lemma_present, present, present_variables, row_of,
    row_width,
};
use crate::stage::TypeAnnotations;
use crate::variable::{Variable, VariablePosition};
use vstd::prelude::*;

verus! {

/// Why an insert or delete stage cannot be compiled.
#[derive(Debug, Clone, Copy, PartialEq, Eq, Structural)]
pub enum WriteCompilationError {
    /// The annotations give the variable no type, or types of several kinds.
    VariableWithoutKind { variable: Variable },
    /// An `isa` of an insert names a variable that the input rows bind.
    IsaStatementForInputVariable { variable: Variable },
    /// Two `isa` of one insert name the same variable.
    ThingInsertedTwice { variable: Variable },
    /// A `has` or `links` names a thing that is neither in the input rows nor
    /// inserted.
    MissingExpectedInput { variable: Variable },
    /// A deleted variable is not in the input rows.
    DeletedThingWasNotInInput { variable: Variable },
}

/// A compiled insert stage. A present slot of the output row schema holds
/// the variable at that position and the kind of its concept.
pub struct InsertExecutable {
    pub executable_id: u64,
    pub output_row_schema: Vec<Option<(Variable, Kind)>>,
}

/// A compiled delete stage. A present slot of the output row schema holds
/// the variable at that position; the slot of a deleted variable is empty.
pub struct DeleteExecutable {
    pub executable_id: u64,
    pub output_row_schema: Vec<Option<Variable>>,
}

/// The kind that all of `types` share, if there is at least one type and
/// they are of one kind.
pub open spec fn uniform_kind(types: Seq<Type>) -> Option<Kind> {
    if types.len() > 0 && forall|i: int| 0 <= i < types.len() ==> kind_of(#[trigger] types[i])
        == kind_of(types[0]) {
        Some(kind_of(types[0]))
    } else {
        None
    }
}

/// The kind that the annotations give a variable.
pub open spec fn kind_in(annotations: Map<Variable, Seq<Type>>, variable: Variable) -> Option<
    Kind,
> {
    if annotations.contains_key(variable) {
        uniform_kind(annotations[variable])
    } else {
        None
    }
}

/// The first of `items` that does not pass `accepted`.
pub open spec fn first_rejected(items: Seq<Variable>, accepted: spec_fn(Variable) -> bool)
    -> Option<Variable>
    decreases items.len(),
{
    if items.len() == 0 {
        None
    } else {
        match first_rejected(items.drop_last(), accepted) {
            Some(variable) => Some(variable),
            None => if accepted(items.last()) {
                None
            } else {
                Some(items.last())
            },
        }
    }
}

/// None is rejected exactly if all items pass; and what is rejected is an
/// item that does not pass.
pub proof fn lemma_first_rejected(items: Seq<Variable>, accepted: spec_fn(Variable) -> bool)
    ensures
        first_rejected(items, accepted) is None <==> forall|i: int|
            0 <= i < items.len() ==> accepted(#[trigger] items[i]),
        first_rejected(items, accepted) matches Some(variable) ==> items.contains(variable)
            && !accepted(variable),
    decreases items.len(),
{
    if items.len() > 0 {
        let front = items.drop_last();
        lemma_first_rejected(front, accepted);
        if first_rejected(front, accepted) is None {
            assert forall|i: int| 0 <= i < front.len() implies accepted(#[trigger] items[i]) by {
                assert(front[i] == items[i]);
            }
            assert(items[items.len() - 1] == items.last());
        } else {
            let variable = first_rejected(front, accepted).unwrap();
            let at = front.index_of(variable);
            assert(items[at] == variable);
        }
    }
}

/// The things that the `has` and `links` of a list of constraints connect:
/// owner and attribute, relation and player.
pub open spec fn connected_variables(constraints: Seq<Constraint>) -> Seq<Variable>
    decreases constraints.len(),
{
    if constraints.len() == 0 {
        Seq::empty()
    } else {
        let front = connected_variables(constraints.drop_last());
        match constraints.last() {
            Constraint::Isa(_) => front,
            Constraint::FunctionCall(_) => front,
            Constraint::Has(has) => front.push(has.owner).push(has.attribute),
            Constraint::Links(links) => front.push(links.relation).push(links.player),
        }
    }
}

/// Whether a slot of an insert's schema holds `variable`.
pub open spec fn schema_holds(schema: Seq<Option<(Variable, Kind)>>, variable: Variable) -> bool {
    exists|i: int|
        0 <= i < schema.len() && (#[trigger] schema[i]) is Some && schema[i].unwrap().0
            == variable
}

/// The slot of an insert's schema for a slot of the input row.
pub open spec fn kinded_slot(annotations: Map<Variable, Seq<Type>>, slot: Option<Variable>)
    -> Option<(Variable, Kind)> {
    match slot {
        Some(variable) => Some((variable, kind_in(annotations, variable).unwrap())),
        None => None,
    }
}

/// The schema after the `isa` of `constraints` have added their things to
/// `base`, or the first error among them: the thing is bound by the input, is
/// inserted already, or has no kind.
pub open spec fn with_inserted_things(
    constraints: Seq<Constraint>,
    input: Map<Variable, VariablePosition>,
    annotations: Map<Variable, Seq<Type>>,
    base: Seq<Option<(Variable, Kind)>>,
) -> Result<Seq<Option<(Variable, Kind)>>, WriteCompilationError>
    decreases constraints.len(),
{
    if constraints.len() == 0 {
        Ok(base)
    } else {
        match with_inserted_things(constraints.drop_last(), input, annotations, base) {
            Err(error) => Err(error),
            Ok(schema) => match constraints.last() {
                Constraint::Isa(isa) => if input.contains_key(isa.thing) {
                    Err(
                        WriteCompilationError::IsaStatementForInputVariable {
                            variable: isa.thing,
                        },
                    )
                } else if schema_holds(schema, isa.thing) {
                    Err(WriteCompilationError::ThingInsertedTwice { variable: isa.thing })
                } else {
                    match kind_in(annotations, isa.thing) {
                        None => Err(
                            WriteCompilationError::VariableWithoutKind { variable: isa.thing },
                        ),
                        Some(kind) => Ok(schema.push(Some((isa.thing, kind)))),
                    }
                },
                _ => Ok(schema),
            },
        }
    }
}

/// What compiling an insert comes to: its output row schema, or the error.
///
/// Every variable of the input row needs a kind; the first one without is
/// reported. The schema starts as the input row.
/// Each `isa` then appends the thing that it inserts. At last every thing
/// that a `has` or `links` connects must stand in the schema.
pub open spec fn insert_schema(
    constraints: Seq<Constraint>,
    input: Map<Variable, VariablePosition>,
    annotations: Map<Variable, Seq<Type>>,
) -> Result<Seq<Option<(Variable, Kind)>>, WriteCompilationError> {
    match first_rejected(
        present(row_of(input)),
        |variable: Variable| kind_in(annotations, variable) is Some,
    ) {
        Some(variable) => Err(WriteCompilationError::VariableWithoutKind { variable }),
        None => {
            let base = row_of(input).map_values(
                |slot: Option<Variable>| kinded_slot(annotations, slot),
            );
            match with_inserted_things(constraints, input, annotations, base) {
                Err(error) => Err(error),
                Ok(schema) => match first_rejected(
                    connected_variables(constraints),
                    |variable: Variable| schema_holds(schema, variable),
                ) {
                    Some(variable) => Err(
                        WriteCompilationError::MissingExpectedInput { variable },
                    ),
                    None => Ok(schema),
                },
            }
        },
    }
}

/// The slot of a delete's schema for a slot of the input row.
pub open spec fn surviving_slot(deleted: Seq<Variable>, slot: Option<Variable>) -> Option<
    Variable,
> {
    match slot {
        Some(variable) => if deleted.contains(variable) {
            None
        } else {
            Some(variable)
        },
        None => None,
    }
}

/// What compiling a delete comes to: its output row schema, or the error.
///
/// Every deleted variable, and every thing that a `has` or `links` connects,
/// must be an input variable. The schema is the input row without the
/// deleted variables.
pub open spec fn delete_schema(
    constraints: Seq<Constraint>,
    deleted: Seq<Variable>,
    input: Map<Variable, VariablePosition>,
) -> Result<Seq<Option<Variable>>, WriteCompilationError> {
    match first_rejected(deleted, |variable: Variable| input.contains_key(variable)) {
        Some(variable) => Err(WriteCompilationError::DeletedThingWasNotInInput { variable }),
        None => match first_rejected(
            connected_variables(constraints),
            |variable: Variable| input.contains_key(variable),
        ) {
            Some(variable) => Err(WriteCompilationError::MissingExpectedInput { variable }),
            None => Ok(
                row_of(input).map_values(
                    |slot: Option<Variable>| surviving_slot(deleted, slot),
                ),
            ),
        },
    }
}

/// The kind that all of `types` share.
pub fn kind_of_types(types: &Vec<Type>) -> (kind: Option<Kind>)
    ensures
        kind == uniform_kind(types@),
{
    if types.len() == 0 {
        return None;
    }
    let first = types[0].kind();
    let mut index: usize = 1;
    while index < types.len()
        invariant
            1 <= index <= types@.len(),
            first == kind_of(types@[0]),
            forall|i: int| 0 <= i < index ==> kind_of(#[trigger] types@[i]) == first,
        decreases types@.len() - index,
    {
        if !types[index].kind().same(&first) {
            return None;
        }
        index += 1;
    }
    Some(first)
}

/// The kind that the annotations give `variable`.
pub fn annotated_kind(annotations: &TypeAnnotations, variable: Variable) -> (kind: Option<Kind>)
    requires
        annotations.wf(),
    ensures
        kind == kind_in(annotations.types(), variable),
{
    match annotations.variable_types.get(&variable) {
        Some(types) => kind_of_types(types),
        None => None,
    }
}

/// The things that the `has` and `links` of `constraints` connect.
pub fn connected(constraints: &Vec<Constraint>) -> (variables: Vec<Variable>)
    ensures
        variables@ == connected_variables(constraints@),
{
    let mut variables: Vec<Variable> = Vec::new();
    let mut index: usize = 0;
    while index < constraints.len()
        invariant
            index <= constraints@.len(),
            variables@ == connected_variables(constraints@.take(index as int)),
        decreases constraints@.len() - index,
    {
        proof {
            let upto = constraints@.take(index + 1);
            assert(upto.drop_last() =~= constraints@.take(index as int));
            assert(upto.last() == constraints@[index as int]);
        }
        match constraints[index] {
            Constraint::Isa(_) => {},
            Constraint::FunctionCall(_) => {},
            Constraint::Has(has) => {
                variables.push(has.owner);
                variables.push(has.attribute);
            },
            Constraint::Links(links) => {
                variables.push(links.relation);
                variables.push(links.player);
            },
        }
        index += 1;
    }
    proof {
        assert(constraints@.take(index as int) =~= constraints@);
    }
    variables
}

/// The first of `variables` that is not a key of `input`.
fn first_not_in_input(variables: &Vec<Variable>, input: &IdMap<Variable, VariablePosition>) -> (missing:
    Option<Variable>)
    ensures
        missing == first_rejected(variables@, |variable: Variable| input@.contains_key(variable)),
{
    let ghost accepted = |variable: Variable| input@.contains_key(variable);
    let mut index: usize = 0;
    while index < variables.len()
        invariant
            index <= variables@.len(),
            accepted == |variable: Variable| input@.contains_key(variable),
            first_rejected(variables@.take(index as int), accepted) is None,
        decreases variables@.len() - index,
    {
        proof {
            let upto = variables@.take(index + 1);
            assert(upto.drop_last() =~= variables@.take(index as int));
            assert(upto.last() == variables@[index as int]);
        }
        if !input.contains_key(&variables[index]) {
            proof {
                lemma_first_rejected_extends(variables@, index + 1, accepted);
            }
            return Some(variables[index]);
        }
        index += 1;
    }
    proof {
        assert(variables@.take(index as int) =~= variables@);
    }
    None
}

/// What a prefix rejects, the whole sequence rejects.
pub proof fn lemma_first_rejected_extends(
    items: Seq<Variable>,
    upto: int,
    accepted: spec_fn(Variable) -> bool,
)
    requires
        0 <= upto <= items.len(),
        first_rejected(items.take(upto), accepted) is Some,
    ensures
        first_rejected(items, accepted) == first_rejected(items.take(upto), accepted),
    decreases items.len() - upto,
{
    if upto < items.len() {
        let next = items.take(upto + 1);
        assert(next.drop_last() =~= items.take(upto));
        lemma_first_rejected_extends(items, upto + 1, accepted);
    } else {
        assert(items.take(upto) =~= items);
    }
}

/// Whether a slot of `schema` holds `variable`.
fn schema_contains(schema: &Vec<Option<(Variable, Kind)>>, variable: Variable) -> (found: bool)
    ensures
        found == schema_holds(schema@, variable),
{
    let mut index: usize = 0;
    while index < schema.len()
        invariant
            index <= schema@.len(),
            forall|i: int|
                0 <= i < index ==> !((#[trigger] schema@[i]) is Some && schema@[i].unwrap().0
                    == variable),
        decreases schema@.len() - index,
    {
        match schema[index] {
            Some((held, _)) => {
                if held == variable {
                    return true;
                }
            },
            None => {},
        }
        index += 1;
    }
    false
}

/// Compiles an insert, as [`insert_schema`] says.
#[verifier::loop_isolation(false)]
pub fn compile_insert(
    constraints: &Vec<Constraint>,
    input_variables: &IdMap<Variable, VariablePosition>,
    annotations: &TypeAnnotations,
    ids: &mut ExecutableIds,
) -> (result: Result<InsertExecutable, WriteCompilationError>)
    requires
        input_variables.wf(),
        injective(input_variables@),
        annotations.wf(),
    ensures
        match result {
            Ok(executable) => {
                &&& insert_schema(constraints@, input_variables@, annotations.types()) == Ok::<_, WriteCompilationError>(executable.output_row_schema@)
                &&& executable.executable_id == old(ids).upcoming()
                &&& final(ids).upcoming() == id_after(old(ids).upcoming())
            },
            Err(error) => {
                &&& insert_schema(constraints@, input_variables@, annotations.types()) == Err::<Seq<Option<(Variable, Kind)>>, _>(error)
                &&& final(ids).upcoming() == old(ids).upcoming()
            },
        },
{
    let ghost types = annotations.types();
    let ghost has_kind = |variable: Variable| kind_in(types, variable) is Some;
    let ghost to_slot = |slot: Option<Variable>| kinded_slot(types, slot);
    let row = input_row(input_variables);
    let keys = present_variables(&row);
    // Every variable of the input row needs a kind.
    let mut index: usize = 0;
    while index < keys.len()
        invariant
            index <= keys@.len(),
            annotations.wf(),
            types == annotations.types(),
            has_kind == |variable: Variable| kind_in(types, variable) is Some,
            first_rejected(keys@.take(index as int), has_kind) is None,
        decreases keys@.len() - index,
    {
        proof {
            let upto = keys@.take(index + 1);
            assert(upto.drop_last() =~= keys@.take(index as int));
            assert(upto.last() == keys@[index as int]);
        }
        if annotated_kind(annotations, keys[index]).is_none() {
            proof {
                lemma_first_rejected_extends(keys@, index + 1, has_kind);
            }
            return Err(WriteCompilationError::VariableWithoutKind { variable: keys[index] });
        }
        index += 1;
    }
    proof {
        assert(keys@.take(index as int) =~= keys@);
        lemma_first_rejected(keys@, has_kind);
        lemma_present(row@);
        assert forall|i: int| 0 <= i < row@.len() implies ((#[trigger] row@[i]) matches Some(
            variable,
        ) ==> kind_in(types, variable) is Some) by {
            if let Some(variable) = row@[i] {
                assert(row@.contains(Some(variable)));
                assert(present(row@).contains(variable));
                let at = keys@.index_of(variable);
                assert(has_kind(keys@[at]));
            }
        }
    }
    // The schema starts as the input row.
    let mut schema: Vec<Option<(Variable, Kind)>> = Vec::new();
    let mut at: usize = 0;
    while at < row.len()
        invariant
            at <= row@.len(),
            annotations.wf(),
            types == annotations.types(),
            to_slot == |slot: Option<Variable>| kinded_slot(types, slot),
            schema@ == row@.take(at as int).map_values(to_slot),
            forall|i: int|
                0 <= i < row@.len() ==> ((#[trigger] row@[i]) matches Some(variable) ==> kind_in(
                    types,
                    variable,
                ) is Some),
        decreases row@.len() - at,
    {
        let slot = match row[at] {
            Some(variable) => Some((variable, annotated_kind(annotations, variable).unwrap())),
            None => None,
        };
        schema.push(slot);
        proof {
            assert(row@.take(at + 1).map_values(to_slot) =~= row@.take(at as int).map_values(
                to_slot,
            ).push(to_slot(row@[at as int])));
        }
        at += 1;
    }
    proof {
        assert(row@.take(at as int) =~= row@);
    }
    let ghost base = schema@;
    // Each `isa` appends the thing that it inserts.
    let mut step: usize = 0;
    while step < constraints.len()
        invariant
            step <= constraints@.len(),
            input_variables.wf(),
            annotations.wf(),
            types == annotations.types(),
            with_inserted_things(constraints@.take(step as int), input_variables@, types, base)
                == Ok::<_, WriteCompilationError>(schema@),
        decreases constraints@.len() - step,
    {
        proof {
            let upto = constraints@.take(step + 1);
            assert(upto.drop_last() =~= constraints@.take(step as int));
            assert(upto.last() == constraints@[step as int]);
        }
        match constraints[step] {
            Constraint::Isa(isa) => {
                let failure = if input_variables.contains_key(&isa.thing) {
                    Some(
                        WriteCompilationError::IsaStatementForInputVariable {
                            variable: isa.thing,
                        },
                    )
                } else if schema_contains(&schema, isa.thing) {
                    Some(WriteCompilationError::ThingInsertedTwice { variable: isa.thing })
                } else {
                    match annotated_kind(annotations, isa.thing) {
                        None => Some(
                            WriteCompilationError::VariableWithoutKind { variable: isa.thing },
                        ),
                        Some(kind) => {
                            schema.push(Some((isa.thing, kind)));
                            None
                        },
                    }
                };
                if let Some(error) = failure {
                    proof {
                        lemma_inserted_things_error_extends(
                            constraints@,
                            step + 1,
                            input_variables@,
                            types,
                            base,
                        );
                    }
                    return Err(error);
                }
            },
            _ => {},
        }
        step += 1;
    }
    proof {
        assert(constraints@.take(step as int) =~= constraints@);
    }
    // Every connected thing must stand in the schema.
    let needed = connected(constraints);
    let ghost held = |variable: Variable| schema_holds(schema@, variable);
    let mut check: usize = 0;
    while check < needed.len()
        invariant
            check <= needed@.len(),
            held == |variable: Variable| schema_holds(schema@, variable),
            first_rejected(needed@.take(check as int), held) is None,
        decreases needed@.len() - check,
    {
        proof {
            let upto = needed@.take(check + 1);
            assert(upto.drop_last() =~= needed@.take(check as int));
            assert(upto.last() == needed@[check as int]);
        }
        if !schema_contains(&schema, needed[check]) {
            proof {
                lemma_first_rejected_extends(needed@, check + 1, held);
            }
            return Err(WriteCompilationError::MissingExpectedInput { variable: needed[check] });
        }
        check += 1;
    }
    proof {
        assert(needed@.take(check as int) =~= needed@);
    }
    Ok(InsertExecutable { executable_id: next_executable_id(ids), output_row_schema: schema })
}

/// The things that the `isa` insert make the schema longer by at most the
/// number of constraints.
pub proof fn lemma_inserted_things_len(
    constraints: Seq<Constraint>,
    input: Map<Variable, VariablePosition>,
    annotations: Map<Variable, Seq<Type>>,
    base: Seq<Option<(Variable, Kind)>>,
)
    ensures
        with_inserted_things(constraints, input, annotations, base) matches Ok(schema)
            ==> base.len() <= schema.len() <= base.len() + constraints.len(),
    decreases constraints.len(),
{
    if constraints.len() > 0 {
        lemma_inserted_things_len(constraints.drop_last(), input, annotations, base);
    }
}

/// The schema of an insert is at least as long as the input row is wide, and
/// longer by at most the number of constraints.
pub proof fn lemma_insert_schema_len(
    constraints: Seq<Constraint>,
    input: Map<Variable, VariablePosition>,
    annotations: Map<Variable, Seq<Type>>,
)
    ensures
        insert_schema(constraints, input, annotations) matches Ok(schema) ==> row_width(input)
            <= schema.len() <= row_width(input) + constraints.len(),
{
    let base = row_of(input).map_values(|slot: Option<Variable>| kinded_slot(annotations, slot));
    lemma_inserted_things_len(constraints, input, annotations, base);
}

/// An error among the `isa` of a prefix is the error of the whole list.
pub proof fn lemma_inserted_things_error_extends(
    constraints: Seq<Constraint>,
    upto: int,
    input: Map<Variable, VariablePosition>,
    annotations: Map<Variable, Seq<Type>>,
    base: Seq<Option<(Variable, Kind)>>,
)
    requires
        0 <= upto <= constraints.len(),
        with_inserted_things(constraints.take(upto), input, annotations, base) is Err,
    ensures
        with_inserted_things(constraints, input, annotations, base) == with_inserted_things(
            constraints.take(upto),
            input,
            annotations,
            base,
        ),
    decreases constraints.len() - upto,
{
    if upto < constraints.len() {
        let next = constraints.take(upto + 1);
        assert(next.drop_last() =~= constraints.take(upto));
        lemma_inserted_things_error_extends(constraints, upto + 1, input, annotations, base);
    } else {
        assert(constraints.take(upto) =~= constraints);
    }
}

/// Compiles a delete, as [`delete_schema`] says.
pub fn compile_delete(
    input_variables: &IdMap<Variable, VariablePosition>,
    constraints: &Vec<Constraint>,
    deleted_variables: &Vec<Variable>,
    ids: &mut ExecutableIds,
) -> (result: Result<DeleteExecutable, WriteCompilationError>)
    requires
        input_variables.wf(),
        injective(input_variables@),
    ensures
        match result {
            Ok(executable) => {
                &&& delete_schema(constraints@, deleted_variables@, input_variables@) == Ok::<_, WriteCompilationError>(executable.output_row_schema@)
                &&& executable.executable_id == old(ids).upcoming()
                &&& final(ids).upcoming() == id_after(old(ids).upcoming())
            },
            Err(error) => {
                &&& delete_schema(constraints@, deleted_variables@, input_variables@) == Err::<Seq<Option<Variable>>, _>(error)
                &&& final(ids).upcoming() == old(ids).upcoming()
            },
        },
{
    if let Some(variable) = first_not_in_input(deleted_variables, input_variables) {
        return Err(WriteCompilationError::DeletedThingWasNotInInput { variable });
    }
    let needed = connected(constraints);
    if let Some(variable) = first_not_in_input(&needed, input_variables) {
        return Err(WriteCompilationError::MissingExpectedInput { variable });
    }
    let row = input_row(input_variables);
    let ghost to_slot = |slot: Option<Variable>| surviving_slot(deleted_variables@, slot);
    let mut schema: Vec<Option<Variable>> = Vec::new();
    let mut at: usize = 0;
    while at < row.len()
        invariant
            at <= row@.len(),
            to_slot == |slot: Option<Variable>| surviving_slot(deleted_variables@, slot),
            schema@ == row@.take(at as int).map_values(to_slot),
        decreases row@.len() - at,
    {
        let slot = match row[at] {
            Some(variable) => if contains_variable(deleted_variables, variable) {
                None
            } else {
                Some(variable)
            },
            None => None,
        };
        schema.push(slot);
        proof {
            assert(row@.take(at + 1).map_values(to_slot) =~= row@.take(at as int).map_values(
                to_slot,
            ).push(to_slot(row@[at as int])));
        }
        at += 1;
    }
    proof {
        assert(row@.take(at as int) =~= row@);
    }
    Ok(DeleteExecutable { executable_id: next_executable_id(ids), output_row_schema: schema })
}

} // verus!
