//! The compiler of pipelines: from annotated stages to executable stages.

use crate::concept::Kind;
use crate::executable_id::{id_after, nth_id, ExecutableIds};
use crate::itertools_specs::{first_occurrences, lemma_first_occurrences, unique_variables};
use crate::id_map::IdMap;
use crate::id_set::IdSet;
use crate::match_planner::{planned_positions, MatchExecutable};
use crate::pattern::FunctionID;
use crate::modifiers::{
    LimitExecutable, OffsetExecutable, RequireExecutable, SelectExecutable, SortExecutable,
};
use crate::reduce::{
    instruction_id, instruction_mapped, ReduceExecutable, ReduceInstruction, ReduceRowsExecutable,
};
use crate::registry::VariableRegistry;
use crate::row::{
    injective, lemma_row_width_bounds, lemma_schema_mapping, mapping_of_schema, row_width,
    schema_mapping, width_of,
};
use crate::stage::{
    named_referenced, reducer_inputs, stage_variables, AnnotatedStage, AssignedReduction, Reduce,
    Require, Select,
};
use crate::variable::{Variable, VariablePosition};
use crate::write::{
    compile_delete, compile_insert, delete_schema, insert_schema, lemma_insert_schema_len,
    DeleteExecutable, InsertExecutable, WriteCompilationError,
};
use vstd::prelude::*;

verus! {

/// A compiled stage.
pub enum ExecutableStage {
    Match(MatchExecutable),
    Insert(InsertExecutable),
    Delete(DeleteExecutable),
    Select(SelectExecutable),
    Sort(SortExecutable),
    Offset(OffsetExecutable),
    Limit(LimitExecutable),
    Require(RequireExecutable),
    Reduce(ReduceExecutable),
}

/// The variable of a slot of an insert's schema.
pub open spec fn slot_variable(slot: Option<(Variable, Kind)>) -> Option<Variable> {
    match slot {
        Some(pair) => Some(pair.0),
        None => None,
    }
}

/// The variables of the slots of an insert's schema.
pub open spec fn schema_variables(schema: Seq<Option<(Variable, Kind)>>) -> Seq<Option<Variable>> {
    schema.map_values(|slot: Option<(Variable, Kind)>| slot_variable(slot))
}

impl ExecutableStage {
    /// Well-formedness: the stage's mapping is well-formed, and its rows are
    /// not wider than positions can count.
    pub open spec fn wf(&self) -> bool {
        match self {
            ExecutableStage::Match(executable) => executable.variable_positions.wf(),
            ExecutableStage::Insert(executable) => executable.output_row_schema@.len() <= u32::MAX
                + 1,
            ExecutableStage::Delete(executable) => executable.output_row_schema@.len() <= u32::MAX
                + 1,
            ExecutableStage::Select(executable) => executable.output_row_mapping.wf()
                && executable.retained_positions.wf(),
            ExecutableStage::Sort(executable) => executable.output_row_mapping.wf(),
            ExecutableStage::Offset(executable) => executable.output_row_mapping.wf(),
            ExecutableStage::Limit(executable) => executable.output_row_mapping.wf(),
            ExecutableStage::Require(executable) => executable.output_row_mapping.wf()
                && executable.required.wf(),
            ExecutableStage::Reduce(executable) => executable.output_row_mapping.wf(),
        }
    }

    /// Where each variable stands in the rows that the stage hands on.
    pub open spec fn mapping(&self) -> Map<Variable, VariablePosition> {
        match self {
            ExecutableStage::Match(executable) => executable.variable_positions@,
            ExecutableStage::Insert(executable) => schema_mapping(
                schema_variables(executable.output_row_schema@),
            ),
            ExecutableStage::Delete(executable) => schema_mapping(executable.output_row_schema@),
            ExecutableStage::Select(executable) => executable.output_row_mapping@,
            ExecutableStage::Sort(executable) => executable.output_row_mapping@,
            ExecutableStage::Offset(executable) => executable.output_row_mapping@,
            ExecutableStage::Limit(executable) => executable.output_row_mapping@,
            ExecutableStage::Require(executable) => executable.output_row_mapping@,
            ExecutableStage::Reduce(executable) => executable.output_row_mapping@,
        }
    }

    /// The identity of the stage's executable.
    pub open spec fn spec_executable_id(&self) -> u64 {
        match self {
            ExecutableStage::Match(executable) => executable.executable_id,
            ExecutableStage::Insert(executable) => executable.executable_id,
            ExecutableStage::Delete(executable) => executable.executable_id,
            ExecutableStage::Select(executable) => executable.executable_id,
            ExecutableStage::Sort(executable) => executable.executable_id,
            ExecutableStage::Offset(executable) => executable.executable_id,
            ExecutableStage::Limit(executable) => executable.executable_id,
            ExecutableStage::Require(executable) => executable.executable_id,
            ExecutableStage::Reduce(executable) => executable.executable_id,
        }
    }

    /// The identity of the stage's executable.
    pub fn executable_id(&self) -> (id: u64)
        ensures
            id == self.spec_executable_id(),
    {
        match self {
            ExecutableStage::Match(executable) => executable.executable_id,
            ExecutableStage::Insert(executable) => executable.executable_id,
            ExecutableStage::Delete(executable) => executable.executable_id,
            ExecutableStage::Select(executable) => executable.executable_id,
            ExecutableStage::Sort(executable) => executable.executable_id,
            ExecutableStage::Offset(executable) => executable.executable_id,
            ExecutableStage::Limit(executable) => executable.executable_id,
            ExecutableStage::Require(executable) => executable.executable_id,
            ExecutableStage::Reduce(executable) => executable.executable_id,
        }
    }

    /// Where each variable stands in the rows that the stage hands on. A
    /// match publishes what its planner laid out; an insert or delete the
    /// present slots of its schema, each at its index; every other stage the
    /// mapping that it holds.
    pub fn output_row_mapping(&self) -> (mapping: IdMap<Variable, VariablePosition>)
        requires
            self.wf(),
        ensures
            mapping.wf(),
            mapping@ == self.mapping(),
    {
        match self {
            ExecutableStage::Match(executable) => executable.variable_positions().clone(),
            ExecutableStage::Insert(executable) => {
                let schema = &executable.output_row_schema;
                let mut slots: Vec<Option<Variable>> = Vec::new();
                let mut index: usize = 0;
                let ghost project = |slot: Option<(Variable, Kind)>| slot_variable(slot);
                while index < schema.len()
                    invariant
                        index <= schema@.len(),
                        project == |slot: Option<(Variable, Kind)>| slot_variable(slot),
                        slots@ == schema@.take(index as int).map_values(project),
                    decreases schema@.len() - index,
                {
                    let slot = match schema[index] {
                        Some((variable, _)) => Some(variable),
                        None => None,
                    };
                    slots.push(slot);
                    proof {
                        assert(schema@.take(index + 1).map_values(project) =~= schema@.take(
                            index as int,
                        ).map_values(project).push(project(schema@[index as int])));
                    }
                    index += 1;
                }
                proof {
                    assert(schema@.take(index as int) =~= schema@);
                }
                mapping_of_schema(&slots)
            },
            ExecutableStage::Delete(executable) => mapping_of_schema(&executable.output_row_schema),
            ExecutableStage::Select(executable) => executable.output_row_mapping.clone(),
            ExecutableStage::Sort(executable) => executable.output_row_mapping.clone(),
            ExecutableStage::Offset(executable) => executable.output_row_mapping.clone(),
            ExecutableStage::Limit(executable) => executable.output_row_mapping.clone(),
            ExecutableStage::Require(executable) => executable.output_row_mapping.clone(),
            ExecutableStage::Reduce(executable) => executable.output_row_mapping.clone(),
        }
    }
}

/// Why a fetch clause cannot be compiled.
#[derive(Debug, Clone, Copy, PartialEq, Eq, Structural)]
pub enum FetchCompilationError {
    /// The clause reads a variable that the last stage does not hand on.
    VariableNotAvailable { variable: Variable },
    /// The clause calls a function that is not compiled.
    FunctionNotFound { function_id: FunctionID },
}

/// Why a pipeline cannot be compiled.
#[derive(Debug, Clone, Copy, PartialEq, Eq, Structural)]
pub enum ExecutableCompilationError {
    InsertExecutableCompilation { source: WriteCompilationError },
    DeleteExecutableCompilation { source: WriteCompilationError },
    FetchCompilation { source: FetchCompilationError },
}

/// The positions of `variables` in `input`, in order.
pub open spec fn positions_of(variables: Seq<Variable>, input: Map<Variable, VariablePosition>)
    -> Seq<VariablePosition> {
    variables.map_values(|variable: Variable| input[variable])
}

/// Whether every one of `variables` has a position in `input`.
pub open spec fn all_available(variables: Seq<Variable>, input: Map<Variable, VariablePosition>)
    -> bool {
    forall|i: int| 0 <= i < variables.len() ==> input.contains_key(#[trigger] variables[i])
}

/// The variables that the reductions of a reduce stage assign, in order.
pub open spec fn assigned_variables(reductions: Seq<AssignedReduction>) -> Seq<Variable> {
    reductions.map_values(|reduction: AssignedReduction| reduction.assigned)
}

/// The row that a reduce stage produces: the grouping variables in the order
/// of their declaration, then the assigned variable of each reduction.
pub open spec fn reduce_slots(reduce: Reduce) -> Seq<Option<Variable>> {
    (reduce.within_group@ + assigned_variables(reduce.assigned_reductions@)).map_values(
        |variable: Variable| Some(variable),
    )
}

/// Whether every reducer reads a variable that has a position in `input`.
pub open spec fn reducers_available(
    reducers: Seq<ReduceInstruction<Variable>>,
    input: Map<Variable, VariablePosition>,
) -> bool {
    forall|i: int|
        0 <= i < reducers.len() ==> (instruction_id(#[trigger] reducers[i]) matches Some(variable)
            ==> input.contains_key(variable))
}

/// The reducers over the positions of the variables that they read.
pub open spec fn reducers_on_positions(
    reducers: Seq<ReduceInstruction<Variable>>,
    input: Map<Variable, VariablePosition>,
) -> Seq<ReduceInstruction<VariablePosition>> {
    reducers.map_values(
        |reducer: ReduceInstruction<Variable>| instruction_mapped(reducer, input),
    )
}

/// What a stage needs of its input rows to be compiled at all: the
/// variables that it reads by position must stand in the input rows, and the
/// rows that it produces must not be wider than positions can count.
pub open spec fn stage_ready(
    stage: AnnotatedStage,
    input: Map<Variable, VariablePosition>,
    selected: Seq<Variable>,
) -> bool {
    match stage {
        AnnotatedStage::Match { .. } => row_width(input) + selected.len() <= u32::MAX + 1,
        AnnotatedStage::Insert { block, .. } => row_width(input)
            + block.conjunction.constraints@.len() <= u32::MAX + 1,
        AnnotatedStage::Delete { .. } => true,
        AnnotatedStage::Select(select) => all_available(select.variables@, input),
        AnnotatedStage::Sort(_) => true,
        AnnotatedStage::Offset(_) => true,
        AnnotatedStage::Limit(_) => true,
        AnnotatedStage::Require(require) => all_available(require.variables@, input),
        AnnotatedStage::Reduce(reduce, reducers) => {
            &&& all_available(reduce.within_group@, input)
            &&& reducers_available(reducers@, input)
            &&& reducers@.len() == reduce.assigned_reductions@.len()
            &&& reduce.within_group@.len() + reducers@.len() <= u32::MAX + 1
        },
    }
}

/// The error that compiling a stage ends in, if it ends in one: that of an
/// insert or of a delete.
pub open spec fn compilation_failure(stage: AnnotatedStage, input: Map<Variable, VariablePosition>)
    -> Option<ExecutableCompilationError> {
    match stage {
        AnnotatedStage::Insert { block, annotations } => match insert_schema(
            block.conjunction.constraints@,
            input,
            annotations.types(),
        ) {
            Err(source) => Some(
                ExecutableCompilationError::InsertExecutableCompilation { source },
            ),
            Ok(_) => None,
        },
        AnnotatedStage::Delete { block, deleted_variables, .. } => match delete_schema(
            block.conjunction.constraints@,
            deleted_variables@,
            input,
        ) {
            Err(source) => Some(
                ExecutableCompilationError::DeleteExecutableCompilation { source },
            ),
            Ok(_) => None,
        },
        _ => None,
    }
}

/// Where each variable stands in the rows that a stage hands on, given where
/// the variables stand in the rows it takes in.
///
/// A match lays out its rows as its planner says. An insert or a delete
/// publishes the present slots of its schema. A select keeps the positions
/// of the variables it lists, and nothing else. A sort, offset, limit or
/// require changes nothing. A reduce puts the grouping variables first and
/// the assigned variables behind them.
pub open spec fn compiled_mapping(
    stage: AnnotatedStage,
    input: Map<Variable, VariablePosition>,
    selected: Seq<Variable>,
) -> Map<Variable, VariablePosition> {
    match stage {
        AnnotatedStage::Match { block, .. } => planned_positions(
            block.spec_variables(),
            selected,
            input,
        ),
        AnnotatedStage::Insert { block, annotations } => match insert_schema(
            block.conjunction.constraints@,
            input,
            annotations.types(),
        ) {
            Ok(schema) => schema_mapping(schema_variables(schema)),
            Err(_) => Map::empty(),
        },
        AnnotatedStage::Delete { block, deleted_variables, .. } => match delete_schema(
            block.conjunction.constraints@,
            deleted_variables@,
            input,
        ) {
            Ok(schema) => schema_mapping(schema),
            Err(_) => Map::empty(),
        },
        AnnotatedStage::Select(select) => input.restrict(select.variables@.to_set()),
        AnnotatedStage::Sort(_) => input,
        AnnotatedStage::Offset(_) => input,
        AnnotatedStage::Limit(_) => input,
        AnnotatedStage::Require(_) => input,
        AnnotatedStage::Reduce(reduce, _) => schema_mapping(reduce_slots(reduce)),
    }
}

/// Whether `executable` is what `stage` compiles to on the given input: of
/// the same kind, and holding what the stage says, with variables turned
/// into positions.
pub open spec fn stage_compiled(
    executable: ExecutableStage,
    stage: AnnotatedStage,
    input: Map<Variable, VariablePosition>,
    selected: Seq<Variable>,
) -> bool {
    &&& executable.mapping() == compiled_mapping(stage, input, selected)
    &&& match stage {
        AnnotatedStage::Match { block, .. } => executable matches ExecutableStage::Match(compiled)
            && compiled.constraints@ == block.conjunction.constraints@,
        AnnotatedStage::Insert { block, annotations } => executable matches ExecutableStage::Insert(
            compiled,
        ) && insert_schema(block.conjunction.constraints@, input, annotations.types()) == Ok::<
            _,
            WriteCompilationError,
        >(compiled.output_row_schema@),
        AnnotatedStage::Delete {
            block,
            deleted_variables,
            ..
        } => executable matches ExecutableStage::Delete(compiled) && delete_schema(
            block.conjunction.constraints@,
            deleted_variables@,
            input,
        ) == Ok::<_, WriteCompilationError>(compiled.output_row_schema@),
        AnnotatedStage::Select(select) => executable matches ExecutableStage::Select(compiled)
            && compiled.retained_positions@ == positions_of(select.variables@, input).to_set(),
        AnnotatedStage::Sort(sort) => executable matches ExecutableStage::Sort(compiled)
            && compiled.sort_on@ == sort.variables@,
        AnnotatedStage::Offset(offset) => executable matches ExecutableStage::Offset(compiled)
            && compiled.offset == offset.offset,
        AnnotatedStage::Limit(limit) => executable matches ExecutableStage::Limit(compiled)
            && compiled.limit == limit.limit,
        AnnotatedStage::Require(require) => executable matches ExecutableStage::Require(compiled)
            && compiled.required@ == positions_of(require.variables@, input).to_set(),
        AnnotatedStage::Reduce(reduce, reducers) => executable matches ExecutableStage::Reduce(
            compiled,
        ) && compiled.reduce_rows_executable.input_group_positions@ == positions_of(
            reduce.within_group@,
            input,
        ) && compiled.reduce_rows_executable.reductions@ == reducers_on_positions(
            reducers@,
            input,
        ),
    }
}

/// The positions of `variables` in `input`.
pub fn lookup_positions(variables: &Vec<Variable>, input: &IdMap<Variable, VariablePosition>) -> (positions:
    Vec<VariablePosition>)
    requires
        input.wf(),
        all_available(variables@, input@),
    ensures
        positions@ == positions_of(variables@, input@),
{
    let mut positions: Vec<VariablePosition> = Vec::new();
    let mut index: usize = 0;
    while index < variables.len()
        invariant
            index <= variables@.len(),
            input.wf(),
            all_available(variables@, input@),
            positions@ == positions_of(variables@.take(index as int), input@),
        decreases variables@.len() - index,
    {
        let position = *input.get(&variables[index]).unwrap();
        positions.push(position);
        proof {
            assert(positions_of(variables@.take(index + 1), input@) =~= positions_of(
                variables@.take(index as int),
                input@,
            ).push(input@[variables@[index as int]]));
        }
        index += 1;
    }
    proof {
        assert(variables@.take(index as int) =~= variables@);
    }
    positions
}

/// The set of the given positions.
pub fn position_set(positions: &Vec<VariablePosition>) -> (set: IdSet<VariablePosition>)
    ensures
        set.wf(),
        set@ == positions@.to_set(),
{
    let mut set: IdSet<VariablePosition> = IdSet::new();
    let mut index: usize = 0;
    while index < positions.len()
        invariant
            index <= positions@.len(),
            set.wf(),
            set@ == positions@.take(index as int).to_set(),
        decreases positions@.len() - index,
    {
        set.insert(positions[index]);
        proof {
            let upto = positions@.take(index + 1);
            assert(upto =~= positions@.take(index as int).push(positions@[index as int]));
            assert(upto.to_set() =~= positions@.take(index as int).to_set().insert(
                positions@[index as int],
            )) by {
                assert forall|position: VariablePosition|
                    upto.to_set().contains(position) <==> positions@.take(index as int).to_set().insert(
                        positions@[index as int],
                    ).contains(position) by {
                    if upto.contains(position) {
                        let at = upto.index_of(position);
                        if at < index {
                            assert(positions@.take(index as int)[at] == position);
                        }
                    }
                    if positions@.take(index as int).contains(position) {
                        let at = positions@.take(index as int).index_of(position);
                        assert(upto[at] == position);
                    }
                    assert(upto[index as int] == positions@[index as int]);
                }
            }
        }
        index += 1;
    }
    proof {
        assert(positions@.take(index as int) =~= positions@);
    }
    set
}

/// The part of `input` that `variables` select.
pub fn restrict_mapping(variables: &Vec<Variable>, input: &IdMap<Variable, VariablePosition>) -> (mapping:
    IdMap<Variable, VariablePosition>)
    requires
        input.wf(),
        all_available(variables@, input@),
    ensures
        mapping.wf(),
        mapping@ == input@.restrict(variables@.to_set()),
{
    let mut mapping: IdMap<Variable, VariablePosition> = IdMap::new();
    let mut index: usize = 0;
    proof {
        assert(variables@.take(0).to_set() =~= Set::<Variable>::empty());
        assert(mapping@ =~= input@.restrict(variables@.take(0).to_set()));
    }
    while index < variables.len()
        invariant
            index <= variables@.len(),
            input.wf(),
            all_available(variables@, input@),
            mapping.wf(),
            mapping@ == input@.restrict(variables@.take(index as int).to_set()),
        decreases variables@.len() - index,
    {
        let variable = variables[index];
        let position = *input.get(&variable).unwrap();
        mapping.insert(variable, position);
        proof {
            let before = variables@.take(index as int);
            let upto = variables@.take(index + 1);
            assert(upto =~= before.push(variable));
            assert forall|other: Variable|
                upto.to_set().contains(other) <==> before.to_set().insert(variable).contains(
                    other,
                ) by {
                if upto.contains(other) {
                    let at = upto.index_of(other);
                    if at < index {
                        assert(before[at] == other);
                    }
                }
                if before.contains(other) {
                    let at = before.index_of(other);
                    assert(upto[at] == other);
                }
                assert(upto[index as int] == variable);
            }
            assert(upto.to_set() =~= before.to_set().insert(variable));
            assert(mapping@ =~= input@.restrict(upto.to_set()));
        }
        index += 1;
    }
    proof {
        assert(variables@.take(index as int) =~= variables@);
    }
    mapping
}


/// Compiles one stage against the layout of the rows that it takes in.
///
/// An insert or a delete may fail, with the error of its compiler; every
/// other stage compiles. See [`stage_compiled`] for what comes out.
#[verifier::rlimit(100)]
pub fn compile_stage(
    input_variables: &IdMap<Variable, VariablePosition>,
    selected_variables: &Vec<Variable>,
    annotated_stage: &AnnotatedStage,
    ids: &mut ExecutableIds,
) -> (result: Result<ExecutableStage, ExecutableCompilationError>)
    requires
        input_variables.wf(),
        injective(input_variables@),
        annotated_stage.wf(),
        stage_ready(*annotated_stage, input_variables@, selected_variables@),
    ensures
        match result {
            Ok(executable) => {
                &&& compilation_failure(*annotated_stage, input_variables@) is None
                &&& executable.wf()
                &&& injective(executable.mapping())
                &&& stage_compiled(
                    executable,
                    *annotated_stage,
                    input_variables@,
                    selected_variables@,
                )
                &&& executable.spec_executable_id() == old(ids).upcoming()
                &&& final(ids).upcoming() == id_after(old(ids).upcoming())
            },
            Err(error) => {
                &&& compilation_failure(*annotated_stage, input_variables@) == Some(error)
                &&& final(ids).upcoming() == old(ids).upcoming()
            },
        },
{
    match annotated_stage {
        AnnotatedStage::Match { block, .. } => {
            let plan = crate::match_planner::compile(
                block,
                input_variables,
                selected_variables,
                ids,
            );
            Ok(ExecutableStage::Match(plan))
        },
        AnnotatedStage::Insert { block, annotations } => {
            match compile_insert(block.conjunction().constraints(), input_variables, annotations, ids) {
                Ok(plan) => {
                    proof {
                        lemma_insert_schema_len(
                            block.conjunction.constraints@,
                            input_variables@,
                            annotations.types(),
                        );
                        lemma_row_width_bounds(input_variables@);
                        lemma_schema_mapping(schema_variables(plan.output_row_schema@));
                    }
                    Ok(ExecutableStage::Insert(plan))
                },
                Err(source) => Err(
                    ExecutableCompilationError::InsertExecutableCompilation { source },
                ),
            }
        },
        AnnotatedStage::Delete { block, deleted_variables, .. } => {
            match compile_delete(
                input_variables,
                block.conjunction().constraints(),
                deleted_variables,
                ids,
            ) {
                Ok(plan) => {
                    proof {
                        lemma_row_width_bounds(input_variables@);
                        lemma_schema_mapping(plan.output_row_schema@);
                    }
                    Ok(ExecutableStage::Delete(plan))
                },
                Err(source) => Err(
                    ExecutableCompilationError::DeleteExecutableCompilation { source },
                ),
            }
        },
        AnnotatedStage::Select(select) => Ok(
            ExecutableStage::Select(compile_select(select, input_variables, ids)),
        ),
        AnnotatedStage::Sort(sort) => {
            Ok(
                ExecutableStage::Sort(
                    SortExecutable::new(sort.variables.clone(), input_variables.clone(), ids),
                ),
            )
        },
        AnnotatedStage::Offset(offset) => {
            Ok(
                ExecutableStage::Offset(
                    OffsetExecutable::new(offset.offset(), input_variables.clone(), ids),
                ),
            )
        },
        AnnotatedStage::Limit(limit) => {
            Ok(
                ExecutableStage::Limit(
                    LimitExecutable::new(limit.limit(), input_variables.clone(), ids),
                ),
            )
        },
        AnnotatedStage::Require(require) => Ok(
            ExecutableStage::Require(compile_require(require, input_variables, ids)),
        ),
        AnnotatedStage::Reduce(reduce, typed_reducers) => Ok(
            ExecutableStage::Reduce(compile_reduce(reduce, typed_reducers, input_variables, ids)),
        ),
    }
}


/// Compiles a select: the listed variables keep their positions, and nothing
/// else stays.
pub fn compile_select(
    select: &Select,
    input_variables: &IdMap<Variable, VariablePosition>,
    ids: &mut ExecutableIds,
) -> (executable: SelectExecutable)
    requires
        input_variables.wf(),
        all_available(select.variables@, input_variables@),
    ensures
        executable.output_row_mapping.wf(),
        executable.retained_positions.wf(),
        executable.output_row_mapping@ == input_variables@.restrict(select.variables@.to_set()),
        executable.retained_positions@ == positions_of(
            select.variables@,
            input_variables@,
        ).to_set(),
        executable.executable_id == old(ids).upcoming(),
        final(ids).upcoming() == id_after(old(ids).upcoming()),
{
    let positions = lookup_positions(&select.variables, input_variables);
    let retained_positions = position_set(&positions);
    let output_row_mapping = restrict_mapping(&select.variables, input_variables);
    SelectExecutable::new(retained_positions, output_row_mapping, ids)
}

/// Compiles a require: the positions of the listed variables must be bound,
/// and the rows keep their layout.
pub fn compile_require(
    require: &Require,
    input_variables: &IdMap<Variable, VariablePosition>,
    ids: &mut ExecutableIds,
) -> (executable: RequireExecutable)
    requires
        input_variables.wf(),
        all_available(require.variables@, input_variables@),
    ensures
        executable.output_row_mapping.wf(),
        executable.required.wf(),
        executable.output_row_mapping@ == input_variables@,
        executable.required@ == positions_of(require.variables@, input_variables@).to_set(),
        executable.executable_id == old(ids).upcoming(),
        final(ids).upcoming() == id_after(old(ids).upcoming()),
{
    let positions = lookup_positions(&require.variables, input_variables);
    let required_positions = position_set(&positions);
    RequireExecutable::new(required_positions, input_variables.clone(), ids)
}

/// Compiles a reduce: the grouping variables are read at their input
/// positions and stand first in the output rows, each reducer reads the
/// position of its variable, and the assigned variables follow the grouping
/// variables in the output rows.
pub fn compile_reduce(
    reduce: &Reduce,
    typed_reducers: &Vec<ReduceInstruction<Variable>>,
    input_variables: &IdMap<Variable, VariablePosition>,
    ids: &mut ExecutableIds,
) -> (executable: ReduceExecutable)
    requires
        input_variables.wf(),
        all_available(reduce.within_group@, input_variables@),
        reducers_available(typed_reducers@, input_variables@),
        typed_reducers@.len() == reduce.assigned_reductions@.len(),
        reduce.within_group@.len() + typed_reducers@.len() <= u32::MAX + 1,
    ensures
        executable.output_row_mapping.wf(),
        injective(executable.output_row_mapping@),
        executable.output_row_mapping@ == schema_mapping(reduce_slots(*reduce)),
        executable.reduce_rows_executable.input_group_positions@ == positions_of(
            reduce.within_group@,
            input_variables@,
        ),
        executable.reduce_rows_executable.reductions@ == reducers_on_positions(
            typed_reducers@,
            input_variables@,
        ),
        executable.executable_id == old(ids).upcoming(),
        final(ids).upcoming() == id_after(old(ids).upcoming()),
{
    let input_group_positions = lookup_positions(&reduce.within_group, input_variables);
    let ghost wrap = |variable: Variable| Some(variable);
    let mut slots: Vec<Option<Variable>> = Vec::new();
    let mut group: usize = 0;
    while group < reduce.within_group.len()
        invariant
            group <= reduce.within_group@.len(),
            wrap == |variable: Variable| Some(variable),
            slots@ == reduce.within_group@.take(group as int).map_values(wrap),
        decreases reduce.within_group@.len() - group,
    {
        slots.push(Some(reduce.within_group[group]));
        proof {
            assert(reduce.within_group@.take(group + 1).map_values(wrap)
                =~= reduce.within_group@.take(group as int).map_values(wrap).push(
                Some(reduce.within_group@[group as int]),
            ));
        }
        group += 1;
    }
    let mut reductions: Vec<ReduceInstruction<VariablePosition>> = Vec::new();
    let mut index: usize = 0;
    proof {
        assert(reduce.within_group@.take(group as int) =~= reduce.within_group@);
        assert(slots@ =~= (reduce.within_group@ + assigned_variables(
            reduce.assigned_reductions@.take(0),
        )).map_values(wrap));
    }
    while index < typed_reducers.len()
        invariant
            index <= typed_reducers@.len(),
            input_variables.wf(),
            typed_reducers@.len() == reduce.assigned_reductions@.len(),
            reducers_available(typed_reducers@, input_variables@),
            wrap == |variable: Variable| Some(variable),
            slots@ == (reduce.within_group@ + assigned_variables(
                reduce.assigned_reductions@.take(index as int),
            )).map_values(wrap),
            reductions@ == reducers_on_positions(
                typed_reducers@.take(index as int),
                input_variables@,
            ),
        decreases typed_reducers@.len() - index,
    {
        slots.push(Some(reduce.assigned_reductions[index].assigned));
        let reducer_on_position = typed_reducers[index].map(input_variables);
        reductions.push(reducer_on_position);
        proof {
            let before = reduce.assigned_reductions@.take(index as int);
            let upto = reduce.assigned_reductions@.take(index + 1);
            assert(assigned_variables(upto) =~= assigned_variables(before).push(
                reduce.assigned_reductions@[index as int].assigned,
            ));
            assert((reduce.within_group@ + assigned_variables(upto)).map_values(wrap)
                =~= (reduce.within_group@ + assigned_variables(before)).map_values(
                wrap,
            ).push(Some(reduce.assigned_reductions@[index as int].assigned)));
            assert(reducers_on_positions(
                typed_reducers@.take(index + 1),
                input_variables@,
            ) =~= reducers_on_positions(
                typed_reducers@.take(index as int),
                input_variables@,
            ).push(instruction_mapped(typed_reducers@[index as int], input_variables@)));
        }
        index += 1;
    }
    proof {
        assert(typed_reducers@.take(index as int) =~= typed_reducers@);
        assert(reduce.assigned_reductions@.take(index as int)
            =~= reduce.assigned_reductions@);
        assert(slots@ == reduce_slots(*reduce));
    }
    let output_row_mapping = mapping_of_schema(&slots);
    ReduceExecutable::new(
        ReduceRowsExecutable { reductions, input_group_positions },
        output_row_mapping,
        ids,
    )
}


/// The layout of the rows that a pipeline starts from: the input variables
/// in the order in which they are listed.
pub open spec fn initial_mapping(input_variables: Seq<Variable>) -> Map<Variable, VariablePosition> {
    schema_mapping(input_variables.map_values(|variable: Variable| Some(variable)))
}

/// The variables that a stage is to hand on: those selected for the whole
/// pipeline, then the named ones that the stage refers to, each once.
pub open spec fn selected_for(
    stage: AnnotatedStage,
    names: Map<Variable, Seq<char>>,
    selected: Seq<Variable>,
) -> Seq<Variable> {
    first_occurrences(selected + named_referenced(stage, names))
}

/// The layout of the rows that a stage takes in: that of the stage before
/// it, or the initial layout for the first stage.
pub open spec fn input_of(
    mappings: Seq<Map<Variable, VariablePosition>>,
    input: Map<Variable, VariablePosition>,
) -> Map<Variable, VariablePosition> {
    if mappings.len() == 0 {
        input
    } else {
        mappings.last()
    }
}

/// What compiling a sequence of stages comes to: the layout of the rows
/// that each stage hands on, or the error of the first stage that fails.
pub open spec fn pipeline_outcome(
    stages: Seq<AnnotatedStage>,
    names: Map<Variable, Seq<char>>,
    selected: Seq<Variable>,
    input: Map<Variable, VariablePosition>,
) -> Result<Seq<Map<Variable, VariablePosition>>, ExecutableCompilationError>
    decreases stages.len(),
{
    if stages.len() == 0 {
        Ok(Seq::empty())
    } else {
        match pipeline_outcome(stages.drop_last(), names, selected, input) {
            Err(error) => Err(error),
            Ok(mappings) => match compilation_failure(stages.last(), input_of(mappings, input)) {
                Some(error) => Err(error),
                None => Ok(
                    mappings.push(
                        compiled_mapping(
                            stages.last(),
                            input_of(mappings, input),
                            selected_for(stages.last(), names, selected),
                        ),
                    ),
                ),
            },
        }
    }
}

/// Whether a sequence of stages can be compiled at all: each stage that the
/// compiler reaches is well-formed and finds what it needs in its input
/// rows.
pub open spec fn pipeline_ready(
    stages: Seq<AnnotatedStage>,
    names: Map<Variable, Seq<char>>,
    selected: Seq<Variable>,
    input: Map<Variable, VariablePosition>,
) -> bool
    decreases stages.len(),
{
    stages.len() == 0 || {
        &&& pipeline_ready(stages.drop_last(), names, selected, input)
        &&& (pipeline_outcome(stages.drop_last(), names, selected, input) matches Ok(mappings)
            ==> stages.last().wf() && stage_ready(
            stages.last(),
            input_of(mappings, input),
            selected_for(stages.last(), names, selected),
        ))
    }
}

/// The layouts of the rows that the compiled stages hand on.
pub open spec fn mappings_of(executables: Seq<ExecutableStage>) -> Seq<
    Map<Variable, VariablePosition>,
> {
    executables.map_values(|executable: ExecutableStage| executable.mapping())
}

/// Whether `executables` are what `stages` compile to, one for one: each is
/// the compilation of its stage on the layout that the one before it hands
/// on, and they carry successive identities from `first_id` on.
pub open spec fn pipeline_compiled(
    executables: Seq<ExecutableStage>,
    stages: Seq<AnnotatedStage>,
    names: Map<Variable, Seq<char>>,
    selected: Seq<Variable>,
    input: Map<Variable, VariablePosition>,
    first_id: u64,
) -> bool {
    &&& executables.len() == stages.len()
    &&& forall|i: int|
        0 <= i < executables.len() ==> {
            &&& (#[trigger] executables[i]).wf()
            &&& injective(executables[i].mapping())
            &&& stage_compiled(
                executables[i],
                stages[i],
                input_of(mappings_of(executables.take(i)), input),
                selected_for(stages[i], names, selected),
            )
            &&& executables[i].spec_executable_id() == nth_id(first_id, i as nat)
        }
}

/// A pipeline that is ready stays ready when stages are taken off its end.
pub proof fn lemma_ready_prefix(
    stages: Seq<AnnotatedStage>,
    upto: int,
    names: Map<Variable, Seq<char>>,
    selected: Seq<Variable>,
    input: Map<Variable, VariablePosition>,
)
    requires
        0 <= upto <= stages.len(),
        pipeline_ready(stages, names, selected, input),
    ensures
        pipeline_ready(stages.take(upto), names, selected, input),
    decreases stages.len() - upto,
{
    if upto < stages.len() {
        assert(stages.drop_last().take(upto) =~= stages.take(upto));
        lemma_ready_prefix(stages.drop_last(), upto, names, selected, input);
    } else {
        assert(stages.take(upto) =~= stages);
    }
}

/// The error of a prefix of the stages is the error of all of them.
pub proof fn lemma_outcome_error_extends(
    stages: Seq<AnnotatedStage>,
    upto: int,
    names: Map<Variable, Seq<char>>,
    selected: Seq<Variable>,
    input: Map<Variable, VariablePosition>,
)
    requires
        0 <= upto <= stages.len(),
        pipeline_outcome(stages.take(upto), names, selected, input) is Err,
    ensures
        pipeline_outcome(stages, names, selected, input) == pipeline_outcome(
            stages.take(upto),
            names,
            selected,
            input,
        ),
    decreases stages.len() - upto,
{
    if upto < stages.len() {
        let next = stages.take(upto + 1);
        assert(next.drop_last() =~= stages.take(upto));
        lemma_outcome_error_extends(stages, upto + 1, names, selected, input);
    } else {
        assert(stages.take(upto) =~= stages);
    }
}

/// The variables that `stage` is to hand on. See [`selected_for`].
pub fn select_for_stage(
    stage: &AnnotatedStage,
    variable_registry: &VariableRegistry,
    selected_variables: &Vec<Variable>,
) -> (selected: Vec<Variable>)
    ensures
        selected@ == selected_for(*stage, variable_registry.names(), selected_variables@),
        selected@.len() <= selected_variables@.len() + stage_variables(*stage).len(),
{
    let mut both = selected_variables.clone();
    let mut named = stage.named_referenced_variables(variable_registry);
    proof {
        let keep = |variable: Variable| variable_registry.names().contains_key(variable);
        stage_variables(*stage).lemma_filter_len(keep);
        lemma_first_occurrences(selected_variables@ + named@);
    }
    both.append(&mut named);
    unique_variables(both)
}

/// Compiles the stages of a pipeline in order. The first stage takes in
/// rows that hold the input variables in the order given; each later stage
/// takes in what the stage before it hands on. Compilation stops at the
/// first stage that fails, with its error.
pub fn compile_pipeline_stages(
    variable_registry: &VariableRegistry,
    annotated_stages: &Vec<AnnotatedStage>,
    input_variables: &Vec<Variable>,
    selected_variables: &Vec<Variable>,
    ids: &mut ExecutableIds,
) -> (result: Result<
    (IdMap<Variable, VariablePosition>, Vec<ExecutableStage>),
    ExecutableCompilationError,
>)
    requires
        input_variables@.len() <= u32::MAX + 1,
        pipeline_ready(
            annotated_stages@,
            variable_registry.names(),
            selected_variables@,
            initial_mapping(input_variables@),
        ),
    ensures
        match result {
            Ok((input_positions, executables)) => {
                &&& input_positions.wf()
                &&& input_positions@ == initial_mapping(input_variables@)
                &&& pipeline_outcome(
                    annotated_stages@,
                    variable_registry.names(),
                    selected_variables@,
                    initial_mapping(input_variables@),
                ) == Ok::<_, ExecutableCompilationError>(mappings_of(executables@))
                &&& pipeline_compiled(
                    executables@,
                    annotated_stages@,
                    variable_registry.names(),
                    selected_variables@,
                    initial_mapping(input_variables@),
                    old(ids).upcoming(),
                )
                &&& final(ids).upcoming() == nth_id(
                    old(ids).upcoming(),
                    annotated_stages@.len(),
                )
            },
            Err(error) => {
                &&& pipeline_outcome(
                    annotated_stages@,
                    variable_registry.names(),
                    selected_variables@,
                    initial_mapping(input_variables@),
                ) == Err::<Seq<Map<Variable, VariablePosition>>, _>(error)
                &&& exists|compiled: nat|
                    compiled < annotated_stages@.len() && final(ids).upcoming() == nth_id(
                        old(ids).upcoming(),
                        compiled,
                    )
            },
        },
{
    let ghost names = variable_registry.names();
    let ghost first_id = ids.upcoming();
    let ghost wrap = |variable: Variable| Some(variable);
    let mut slots: Vec<Option<Variable>> = Vec::new();
    let mut made: usize = 0;
    while made < input_variables.len()
        invariant
            made <= input_variables@.len(),
            wrap == |variable: Variable| Some(variable),
            slots@ == input_variables@.take(made as int).map_values(wrap),
        decreases input_variables@.len() - made,
    {
        slots.push(Some(input_variables[made]));
        proof {
            assert(input_variables@.take(made + 1).map_values(wrap) =~= input_variables@.take(
                made as int,
            ).map_values(wrap).push(Some(input_variables@[made as int])));
        }
        made += 1;
    }
    proof {
        assert(input_variables@.take(made as int) =~= input_variables@);
    }
    let input_variable_positions = mapping_of_schema(&slots);
    let ghost input = input_variable_positions@;
    let mut executable_stages: Vec<ExecutableStage> = Vec::new();
    let mut index: usize = 0;
    proof {
        assert(annotated_stages@.take(0) =~= Seq::<AnnotatedStage>::empty());
        assert(mappings_of(executable_stages@) =~= Seq::<
            Map<Variable, VariablePosition>,
        >::empty());
    }
    while index < annotated_stages.len()
        invariant
            index <= annotated_stages@.len(),
            names == variable_registry.names(),
            input_variable_positions.wf(),
            injective(input),
            input == input_variable_positions@,
            input == initial_mapping(input_variables@),
            first_id == old(ids).upcoming(),
            pipeline_ready(annotated_stages@, names, selected_variables@, input),
            pipeline_outcome(
                annotated_stages@.take(index as int),
                names,
                selected_variables@,
                input,
            ) == Ok::<_, ExecutableCompilationError>(mappings_of(executable_stages@)),
            pipeline_compiled(
                executable_stages@,
                annotated_stages@.take(index as int),
                names,
                selected_variables@,
                input,
                first_id,
            ),
            ids.upcoming() == nth_id(first_id, index as nat),
        decreases annotated_stages@.len() - index,
    {
        let stage = &annotated_stages[index];
        let selected = select_for_stage(stage, variable_registry, selected_variables);
        let ghost before = executable_stages@;
        proof {
            lemma_ready_prefix(annotated_stages@, index + 1, names, selected_variables@, input);
            let upto = annotated_stages@.take(index + 1);
            assert(upto.drop_last() =~= annotated_stages@.take(index as int));
            assert(upto.last() == annotated_stages@[index as int]);
            if index > 0 {
                assert(mappings_of(before).last() == before[index - 1].mapping());
            }
            assert(before.take(index as int) =~= before);
        }
        let compiled = if index == 0 {
            compile_stage(&input_variable_positions, &selected, stage, ids)
        } else {
            let row_mapping = executable_stages[index - 1].output_row_mapping();
            compile_stage(&row_mapping, &selected, stage, ids)
        };
        match compiled {
            Ok(executable) => {
                executable_stages.push(executable);
                proof {
                    let after = executable_stages@;
                    assert(mappings_of(after) =~= mappings_of(before).push(executable.mapping()));
                    assert forall|i: int| 0 <= i < after.len() implies {
                        &&& (#[trigger] after[i]).wf()
                        &&& injective(after[i].mapping())
                        &&& stage_compiled(
                            after[i],
                            annotated_stages@.take(index + 1)[i],
                            input_of(mappings_of(after.take(i)), input),
                            selected_for(
                                annotated_stages@.take(index + 1)[i],
                                names,
                                selected_variables@,
                            ),
                        )
                        &&& after[i].spec_executable_id() == nth_id(first_id, i as nat)
                    } by {
                        if i < index {
                            assert(after[i] == before[i]);
                            assert(after.take(i) =~= before.take(i));
                            assert(annotated_stages@.take(index + 1)[i] == annotated_stages@.take(
                                index as int,
                            )[i]);
                        } else {
                            assert(after.take(i) =~= before);
                        }
                    }
                }
            },
            Err(error) => {
                proof {
                    lemma_outcome_error_extends(
                        annotated_stages@,
                        index + 1,
                        names,
                        selected_variables@,
                        input,
                    );
                    assert(index < annotated_stages@.len() && ids.upcoming() == nth_id(
                        first_id,
                        index as nat,
                    ));
                }
                return Err(error);
            },
        }
        index += 1;
    }
    proof {
        assert(annotated_stages@.take(index as int) =~= annotated_stages@);
    }
    Ok((input_variable_positions, executable_stages))
}


/// A select that lists every input variable, and every sort, offset, limit
/// and require, hands on rows laid out as the rows that it takes in, and
/// does not fail.
pub proof fn lemma_identity_modifiers(
    stage: AnnotatedStage,
    input: Map<Variable, VariablePosition>,
    selected: Seq<Variable>,
)
    requires
        stage is Sort || stage is Offset || stage is Limit || stage is Require || (
        stage matches AnnotatedStage::Select(select) && input.dom().subset_of(
            select.variables@.to_set(),
        )),
    ensures
        compiled_mapping(stage, input, selected) == input,
        compilation_failure(stage, input) is None,
{
    if let AnnotatedStage::Select(select) = stage {
        assert(input.restrict(select.variables@.to_set()) =~= input);
    }
}

/// The variables that reducers read are found where every reducer finds its
/// variable.
proof fn lemma_reducer_inputs_available(
    reducers: Seq<ReduceInstruction<Variable>>,
    input: Map<Variable, VariablePosition>,
)
    requires
        reducers_available(reducers, input),
    ensures
        all_available(reducer_inputs(reducers), input),
    decreases reducers.len(),
{
    if reducers.len() > 0 {
        let front = reducers.drop_last();
        assert forall|i: int| 0 <= i < front.len() implies (instruction_id(
            #[trigger] front[i],
        ) matches Some(variable) ==> input.contains_key(variable)) by {
            assert(front[i] == reducers[i]);
        }
        lemma_reducer_inputs_available(front, input);
        assert(reducers[reducers.len() - 1] == reducers.last());
    }
}

/// Position closure: in a pipeline that can be compiled, every stage that
/// looks variables up in its input rows (a select, a require, a reduce)
/// finds each variable that it refers to, and so each named one, among the
/// variables of the rows that the stage before it hands on.
pub proof fn lemma_position_closure(
    stages: Seq<AnnotatedStage>,
    names: Map<Variable, Seq<char>>,
    selected: Seq<Variable>,
    input: Map<Variable, VariablePosition>,
    index: int,
)
    requires
        pipeline_ready(stages, names, selected, input),
        0 <= index < stages.len(),
        pipeline_outcome(stages.take(index), names, selected, input) is Ok,
        stages[index] is Select || stages[index] is Require || stages[index] is Reduce,
    ensures
        all_available(
            stage_variables(stages[index]),
            input_of(pipeline_outcome(stages.take(index), names, selected, input).unwrap(), input),
        ),
        all_available(
            named_referenced(stages[index], names),
            input_of(pipeline_outcome(stages.take(index), names, selected, input).unwrap(), input),
        ),
{
    lemma_ready_prefix(stages, index + 1, names, selected, input);
    let upto = stages.take(index + 1);
    assert(upto.drop_last() =~= stages.take(index));
    assert(upto.last() == stages[index]);
    let rows = input_of(pipeline_outcome(stages.take(index), names, selected, input).unwrap(), input);
    let stage = stages[index];
    if let AnnotatedStage::Reduce(reduce, reducers) = stage {
        lemma_reducer_inputs_available(reducers@, rows);
        let inputs = reducer_inputs(reducers@);
        assert forall|i: int| 0 <= i < stage_variables(stage).len() implies rows.contains_key(
            #[trigger] stage_variables(stage)[i],
        ) by {
            if i >= reduce.within_group@.len() {
                assert(stage_variables(stage)[i] == inputs[i - reduce.within_group@.len()]);
            }
        }
    }
    let referenced = stage_variables(stage);
    let keep = |variable: Variable| names.contains_key(variable);
    let named = referenced.filter(keep);
    assert forall|i: int| 0 <= i < named.len() implies rows.contains_key(#[trigger] named[i]) by {
        referenced.lemma_filter_contains_rev(keep, named[i]);
        let at = referenced.index_of(named[i]);
        assert(rows.contains_key(referenced[at]));
    }
}

/// Of two compilations of the same stages on the same input, the stages at
/// the same place hand on rows of the same layout. Their identities may
/// differ.
pub proof fn lemma_compilation_is_deterministic(
    first: Seq<ExecutableStage>,
    second: Seq<ExecutableStage>,
    stages: Seq<AnnotatedStage>,
    names: Map<Variable, Seq<char>>,
    selected: Seq<Variable>,
    input: Map<Variable, VariablePosition>,
    first_id: u64,
    second_id: u64,
)
    requires
        pipeline_compiled(first, stages, names, selected, input, first_id),
        pipeline_compiled(second, stages, names, selected, input, second_id),
    ensures
        mappings_of(first) == mappings_of(second),
{
    assert forall|i: int| 0 <= i < first.len() implies first[i].mapping()
        == second[i].mapping() by {
        lemma_same_mapping_at(first, second, stages, names, selected, input, first_id, second_id, i);
    }
    assert(mappings_of(first) =~= mappings_of(second));
}

/// The step of [`lemma_compilation_is_deterministic`]: the stages at `index`
/// agree, because the stages before them do.
proof fn lemma_same_mapping_at(
    first: Seq<ExecutableStage>,
    second: Seq<ExecutableStage>,
    stages: Seq<AnnotatedStage>,
    names: Map<Variable, Seq<char>>,
    selected: Seq<Variable>,
    input: Map<Variable, VariablePosition>,
    first_id: u64,
    second_id: u64,
    index: int,
)
    requires
        pipeline_compiled(first, stages, names, selected, input, first_id),
        pipeline_compiled(second, stages, names, selected, input, second_id),
        0 <= index < first.len(),
    ensures
        first[index].mapping() == second[index].mapping(),
    decreases index,
{
    if index > 0 {
        lemma_same_mapping_at(
            first,
            second,
            stages,
            names,
            selected,
            input,
            first_id,
            second_id,
            index - 1,
        );
        assert(mappings_of(first.take(index)).last() == first[index - 1].mapping());
        assert(mappings_of(second.take(index)).last() == second[index - 1].mapping());
    }
    assert(first[index].wf() && second[index].wf());
}

/// The layout of the rows of a reduce: the grouping variables stand first,
/// in the order of their declaration, and the assigned variables of the
/// reductions follow them in order, as long as no variable is listed twice.
pub proof fn lemma_reduce_layout(reduce: Reduce)
    requires
        (reduce.within_group@ + assigned_variables(reduce.assigned_reductions@)).no_duplicates(),
        reduce.within_group@.len() + reduce.assigned_reductions@.len() <= u32::MAX + 1,
    ensures
        forall|i: int|
            0 <= i < reduce.within_group@.len() ==> schema_mapping(
                reduce_slots(reduce),
            ).contains_key(#[trigger] reduce.within_group@[i]) && schema_mapping(
                reduce_slots(reduce),
            )[reduce.within_group@[i]].position == i,
        forall|j: int|
            0 <= j < reduce.assigned_reductions@.len() ==> schema_mapping(
                reduce_slots(reduce),
            ).contains_key((#[trigger] reduce.assigned_reductions@[j]).assigned) && schema_mapping(
                reduce_slots(reduce),
            )[reduce.assigned_reductions@[j].assigned].position == reduce.within_group@.len() + j,
        forall|variable: Variable| #[trigger]
            schema_mapping(reduce_slots(reduce)).contains_key(variable)
                <==> reduce.within_group@.contains(variable) || assigned_variables(
                reduce.assigned_reductions@,
            ).contains(variable),
{
    let listed = reduce.within_group@ + assigned_variables(reduce.assigned_reductions@);
    let slots = reduce_slots(reduce);
    let groups = reduce.within_group@.len() as int;
    lemma_schema_mapping(slots);
    assert forall|i: int| 0 <= i < slots.len() implies (#[trigger] slots[i]) == Some(listed[i])
        && (forall|j: int| i < j < slots.len() ==> slots[j] != slots[i]) by {
        assert forall|j: int| i < j < slots.len() implies slots[j] != slots[i] by {
            assert(listed[i] != listed[j]);
        }
    }
    assert forall|i: int| 0 <= i < groups implies schema_mapping(slots).contains_key(
        #[trigger] reduce.within_group@[i],
    ) && schema_mapping(slots)[reduce.within_group@[i]].position == i by {
        assert(slots[i] == Some(reduce.within_group@[i]));
        assert(slots.contains(Some(reduce.within_group@[i])));
    }
    assert forall|j: int| 0 <= j < reduce.assigned_reductions@.len() implies schema_mapping(
        slots,
    ).contains_key((#[trigger] reduce.assigned_reductions@[j]).assigned) && schema_mapping(
        slots,
    )[reduce.assigned_reductions@[j].assigned].position == groups + j by {
        assert(slots[groups + j] == Some(reduce.assigned_reductions@[j].assigned));
        assert(slots.contains(Some(reduce.assigned_reductions@[j].assigned)));
    }
    assert forall|variable: Variable| #[trigger]
        schema_mapping(slots).contains_key(variable) <==> reduce.within_group@.contains(variable)
            || assigned_variables(reduce.assigned_reductions@).contains(variable) by {
        if slots.contains(Some(variable)) {
            let at = slots.index_of(Some(variable));
            if at < groups {
                assert(reduce.within_group@[at] == variable);
            } else {
                assert(assigned_variables(reduce.assigned_reductions@)[at - groups] == variable);
            }
        }
        if reduce.within_group@.contains(variable) {
            let at = reduce.within_group@.index_of(variable);
            assert(slots[at] == Some(variable));
        }
        if assigned_variables(reduce.assigned_reductions@).contains(variable) {
            let at = assigned_variables(reduce.assigned_reductions@).index_of(variable);
            assert(slots[groups + at] == Some(variable));
        }
    }
}


/// Whether every one of `variables` has a position in `input`.
pub fn are_available(variables: &Vec<Variable>, input: &IdMap<Variable, VariablePosition>) -> (available:
    bool)
    ensures
        available == all_available(variables@, input@),
{
    let mut index: usize = 0;
    while index < variables.len()
        invariant
            index <= variables@.len(),
            forall|i: int| 0 <= i < index ==> input@.contains_key(#[trigger] variables@[i]),
        decreases variables@.len() - index,
    {
        if !input.contains_key(&variables[index]) {
            return false;
        }
        index += 1;
    }
    true
}

/// Whether `stage` finds in `input_variables` what it needs to be compiled.
/// See [`stage_ready`].
pub fn stage_is_ready(
    input_variables: &IdMap<Variable, VariablePosition>,
    selected_variables: &Vec<Variable>,
    annotated_stage: &AnnotatedStage,
) -> (ready: bool)
    requires
        input_variables.wf(),
    ensures
        ready == stage_ready(*annotated_stage, input_variables@, selected_variables@),
{
    let limit: u64 = 0x1_0000_0000;
    match annotated_stage {
        AnnotatedStage::Match { .. } => {
            let width = width_of(input_variables);
            proof {
                lemma_row_width_bounds(input_variables@);
            }
            selected_variables.len() as u64 <= limit - width
        },
        AnnotatedStage::Insert { block, .. } => {
            let width = width_of(input_variables);
            proof {
                lemma_row_width_bounds(input_variables@);
            }
            block.conjunction.constraints.len() as u64 <= limit - width
        },
        AnnotatedStage::Delete { .. } => true,
        AnnotatedStage::Select(select) => are_available(&select.variables, input_variables),
        AnnotatedStage::Sort(_) => true,
        AnnotatedStage::Offset(_) => true,
        AnnotatedStage::Limit(_) => true,
        AnnotatedStage::Require(require) => are_available(&require.variables, input_variables),
        AnnotatedStage::Reduce(reduce, reducers) => {
            if !are_available(&reduce.within_group, input_variables) {
                return false;
            }
            let mut index: usize = 0;
            while index < reducers.len()
                invariant
                    index <= reducers@.len(),
                    *annotated_stage == AnnotatedStage::Reduce(*reduce, *reducers),
                    forall|i: int|
                        0 <= i < index ==> (instruction_id(#[trigger] reducers@[i]) matches Some(
                            variable,
                        ) ==> input_variables@.contains_key(variable)),
                decreases reducers@.len() - index,
            {
                if let Some(variable) = reducers[index].id() {
                    if !input_variables.contains_key(&variable) {
                        assert(!reducers_available(reducers@, input_variables@)) by {
                            assert(instruction_id(reducers@[index as int]) == Some(variable));
                        }
                        return false;
                    }
                }
                index += 1;
            }
            reducers.len() == reduce.assigned_reductions.len() && reducers.len() as u64 <= limit
                && reduce.within_group.len() as u64 <= limit - reducers.len() as u64
        },
    }
}

} // verus!
