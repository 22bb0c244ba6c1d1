//! Functions: their annotated form, their compiled form, and the registry of
//! compiled functions.

use crate::encoding::DefinitionKey;
use crate::executable_id::{nth_id, ExecutableIds};
use crate::id_map::IdMap;
use crate::pattern::{Constraint, FunctionID};
use crate::pipeline::{
    all_available, compile_pipeline_stages, initial_mapping, input_of, lookup_positions,
    mappings_of, pipeline_compiled, pipeline_outcome, pipeline_ready, positions_of,
    ExecutableCompilationError, ExecutableStage,
};
use crate::registry::VariableRegistry;
use crate::stage::AnnotatedStage;
use crate::variable::{Variable, VariablePosition};
use vstd::prelude::*;

verus! {

/// What a function returns: a stream of rows, or a single row, of the given
/// variables.
pub enum AnnotatedReturn {
    Stream(Vec<Variable>),
    Single(Vec<Variable>),
}

impl AnnotatedReturn {
    /// The variables that are returned, in order.
    pub open spec fn spec_variables(&self) -> Seq<Variable> {
        match self {
            AnnotatedReturn::Stream(variables) => variables@,
            AnnotatedReturn::Single(variables) => variables@,
        }
    }

    /// The variables that are returned, in order.
    pub fn referenced_variables(&self) -> (variables: &Vec<Variable>)
        ensures
            variables@ == self.spec_variables(),
    {
        match self {
            AnnotatedReturn::Stream(variables) => variables,
            AnnotatedReturn::Single(variables) => variables,
        }
    }
}

/// A function whose stages have been given their types. Its body is a
/// pipeline over rows that hold the arguments, with a return clause.
pub struct AnnotatedFunction {
    pub variable_registry: VariableRegistry,
    pub arguments: Vec<Variable>,
    pub stages: Vec<AnnotatedStage>,
    pub return_operation: AnnotatedReturn,
}

/// What a compiled function returns: the positions to read from the rows of
/// its last stage.
pub enum ExecutableReturn {
    Stream(Vec<VariablePosition>),
    Single(Vec<VariablePosition>),
}

impl ExecutableReturn {
    /// The positions that are returned, in order.
    pub open spec fn positions(&self) -> Seq<VariablePosition> {
        match self {
            ExecutableReturn::Stream(positions) => positions@,
            ExecutableReturn::Single(positions) => positions@,
        }
    }
}

/// A compiled function.
pub struct ExecutableFunction {
    pub executable_stages: Vec<ExecutableStage>,
    pub argument_positions: IdMap<Variable, VariablePosition>,
    pub returns: ExecutableReturn,
    pub is_tabled: bool,
}

/// The functions that the call constraints among `constraints` call, in
/// order.
pub open spec fn constraint_calls(constraints: Seq<Constraint>) -> Seq<FunctionID>
    decreases constraints.len(),
{
    if constraints.len() == 0 {
        Seq::empty()
    } else {
        let front = constraint_calls(constraints.drop_last());
        match constraints.last() {
            Constraint::FunctionCall(call) => front.push(call.function_id),
            _ => front,
        }
    }
}

/// The functions that a stage calls: those of the call constraints of its
/// block.
pub open spec fn stage_calls(stage: AnnotatedStage) -> Seq<FunctionID> {
    match stage {
        AnnotatedStage::Match { block, .. } => constraint_calls(block.conjunction.constraints@),
        AnnotatedStage::Insert { block, .. } => constraint_calls(block.conjunction.constraints@),
        AnnotatedStage::Delete { block, .. } => constraint_calls(block.conjunction.constraints@),
        _ => Seq::empty(),
    }
}

/// The functions that the stages call, stage by stage.
pub open spec fn stages_calls(stages: Seq<AnnotatedStage>) -> Seq<FunctionID>
    decreases stages.len(),
{
    if stages.len() == 0 {
        Seq::empty()
    } else {
        stages_calls(stages.drop_last()) + stage_calls(stages.last())
    }
}

/// The layout of the rows that the last stage of a function hands on, or
/// the layout of the argument rows for a function without stages.
pub open spec fn final_mapping(function: AnnotatedFunction) -> Map<Variable, VariablePosition> {
    match pipeline_outcome(
        function.stages@,
        function.variable_registry.names(),
        function.return_operation.spec_variables(),
        initial_mapping(function.arguments@),
    ) {
        Ok(mappings) => input_of(mappings, initial_mapping(function.arguments@)),
        Err(_) => Map::empty(),
    }
}

/// Whether a function can be compiled at all: its arguments fit into a row,
/// its stages can be compiled, and what it returns stands in the rows of
/// its last stage.
pub open spec fn function_ready(function: AnnotatedFunction) -> bool {
    &&& function.arguments@.len() <= u32::MAX + 1
    &&& pipeline_ready(
        function.stages@,
        function.variable_registry.names(),
        function.return_operation.spec_variables(),
        initial_mapping(function.arguments@),
    )
    &&& (pipeline_outcome(
        function.stages@,
        function.variable_registry.names(),
        function.return_operation.spec_variables(),
        initial_mapping(function.arguments@),
    ) is Ok ==> all_available(
        function.return_operation.spec_variables(),
        final_mapping(function),
    ))
}

/// The error that compiling a function ends in, if it ends in one: that of
/// the first of its stages that fails.
pub open spec fn function_failure(function: AnnotatedFunction) -> Option<
    ExecutableCompilationError,
> {
    match pipeline_outcome(
        function.stages@,
        function.variable_registry.names(),
        function.return_operation.spec_variables(),
        initial_mapping(function.arguments@),
    ) {
        Ok(_) => None,
        Err(error) => Some(error),
    }
}

/// Whether `executable` is what `function` compiles to: its stages are the
/// compiled stages of the function, on rows that hold the arguments in
/// order; it returns the positions of the returned variables in the rows of
/// the last stage, as a stream or as a single row as the function says; and
/// it is tabled as asked.
pub open spec fn function_compiled(
    executable: ExecutableFunction,
    function: AnnotatedFunction,
    is_tabled: bool,
    first_id: u64,
) -> bool {
    &&& executable.argument_positions.wf()
    &&& executable.argument_positions@ == initial_mapping(function.arguments@)
    &&& pipeline_compiled(
        executable.executable_stages@,
        function.stages@,
        function.variable_registry.names(),
        function.return_operation.spec_variables(),
        initial_mapping(function.arguments@),
        first_id,
    )
    &&& executable.returns.positions() == positions_of(
        function.return_operation.spec_variables(),
        final_mapping(function),
    )
    &&& (executable.returns is Stream <==> function.return_operation is Stream)
    &&& executable.is_tabled == is_tabled
}

impl AnnotatedFunction {
    /// The functions that the body of the function calls.
    pub fn calls(&self) -> (called: Vec<FunctionID>)
        ensures
            called@ == stages_calls(self.stages@),
    {
        let mut called: Vec<FunctionID> = Vec::new();
        let mut index: usize = 0;
        while index < self.stages.len()
            invariant
                index <= self.stages@.len(),
                called@ == stages_calls(self.stages@.take(index as int)),
            decreases self.stages@.len() - index,
        {
            proof {
                let upto = self.stages@.take(index + 1);
                assert(upto.drop_last() =~= self.stages@.take(index as int));
                assert(upto.last() == self.stages@[index as int]);
            }
            let mut more = calls_of_stage(&self.stages[index]);
            called.append(&mut more);
            index += 1;
        }
        proof {
            assert(self.stages@.take(index as int) =~= self.stages@);
        }
        called
    }
}

/// The functions that `stage` calls.
pub fn calls_of_stage(stage: &AnnotatedStage) -> (called: Vec<FunctionID>)
    ensures
        called@ == stage_calls(*stage),
{
    match stage {
        AnnotatedStage::Match { block, .. } => calls_of_constraints(
            block.conjunction().constraints(),
        ),
        AnnotatedStage::Insert { block, .. } => calls_of_constraints(
            block.conjunction().constraints(),
        ),
        AnnotatedStage::Delete { block, .. } => calls_of_constraints(
            block.conjunction().constraints(),
        ),
        _ => Vec::new(),
    }
}

/// The functions that the call constraints among `constraints` call.
pub fn calls_of_constraints(constraints: &Vec<Constraint>) -> (called: Vec<FunctionID>)
    ensures
        called@ == constraint_calls(constraints@),
{
    let mut called: Vec<FunctionID> = Vec::new();
    let mut index: usize = 0;
    while index < constraints.len()
        invariant
            index <= constraints@.len(),
            called@ == constraint_calls(constraints@.take(index as int)),
        decreases constraints@.len() - index,
    {
        proof {
            let upto = constraints@.take(index + 1);
            assert(upto.drop_last() =~= constraints@.take(index as int));
            assert(upto.last() == constraints@[index as int]);
        }
        match constraints[index] {
            Constraint::FunctionCall(call) => {
                called.push(call.function_id);
            },
            _ => {},
        }
        index += 1;
    }
    proof {
        assert(constraints@.take(index as int) =~= constraints@);
    }
    called
}

/// Compiles a function: its stages as a pipeline over the argument rows,
/// selecting the returned variables; then its return clause against the
/// rows of the last stage. `is_tabled` says whether calls of the function
/// are to be evaluated with a table; it does not change what is compiled.
pub fn compile_function(
    function: &AnnotatedFunction,
    is_tabled: bool,
    ids: &mut ExecutableIds,
) -> (result: Result<ExecutableFunction, ExecutableCompilationError>)
    requires
        function_ready(*function),
    ensures
        match result {
            Ok(executable) => {
                &&& function_failure(*function) is None
                &&& function_compiled(executable, *function, is_tabled, old(ids).upcoming())
                &&& final(ids).upcoming() == nth_id(old(ids).upcoming(), function.stages@.len())
            },
            Err(error) => {
                &&& function_failure(*function) == Some(error)
                &&& exists|compiled: nat|
                    compiled < function.stages@.len() && final(ids).upcoming() == nth_id(
                        old(ids).upcoming(),
                        compiled,
                    )
            },
        },
{
    let returned = function.return_operation.referenced_variables();
    let compiled = compile_pipeline_stages(
        &function.variable_registry,
        &function.stages,
        &function.arguments,
        returned,
        ids,
    );
    match compiled {
        Err(error) => Err(error),
        Ok((argument_positions, executable_stages)) => {
            let count = executable_stages.len();
            let positions = if count == 0 {
                lookup_positions(returned, &argument_positions)
            } else {
                proof {
                    assert(mappings_of(executable_stages@).last() == executable_stages@[count
                        - 1].mapping());
                }
                let last = executable_stages[count - 1].output_row_mapping();
                lookup_positions(returned, &last)
            };
            let return_clause = match &function.return_operation {
                AnnotatedReturn::Stream(_) => ExecutableReturn::Stream(positions),
                AnnotatedReturn::Single(_) => ExecutableReturn::Single(positions),
            };
            Ok(
                ExecutableFunction {
                    executable_stages,
                    argument_positions,
                    returns: return_clause,
                    is_tabled,
                },
            )
        },
    }
}

/// The compiled functions that a pipeline can call: those of the schema, by
/// definition key, and those of the query's preamble, by index.
pub struct ExecutableFunctionRegistry {
    schema_functions: IdMap<DefinitionKey, ExecutableFunction>,
    preamble_functions: IdMap<usize, ExecutableFunction>,
}

impl ExecutableFunctionRegistry {
    /// Well-formedness of the two maps.
    pub closed spec fn wf(&self) -> bool {
        self.schema_functions.wf() && self.preamble_functions.wf()
    }

    /// The compiled schema functions.
    pub closed spec fn schema(&self) -> Map<DefinitionKey, ExecutableFunction> {
        self.schema_functions@
    }

    /// The compiled preamble functions.
    pub closed spec fn preamble(&self) -> Map<usize, ExecutableFunction> {
        self.preamble_functions@
    }

    /// Whether the registry holds the function `id`.
    pub open spec fn has(&self, id: FunctionID) -> bool {
        match id {
            FunctionID::Schema(key) => self.schema().contains_key(key),
            FunctionID::Preamble(index) => self.preamble().contains_key(index),
        }
    }

    /// The function `id`, which the registry must hold.
    pub open spec fn function(&self, id: FunctionID) -> ExecutableFunction {
        match id {
            FunctionID::Schema(key) => self.schema()[key],
            FunctionID::Preamble(index) => self.preamble()[index],
        }
    }

    /// A registry without functions.
    pub fn empty() -> (registry: ExecutableFunctionRegistry)
        ensures
            registry.wf(),
            registry.schema() == Map::<DefinitionKey, ExecutableFunction>::empty(),
            registry.preamble() == Map::<usize, ExecutableFunction>::empty(),
    {
        ExecutableFunctionRegistry {
            schema_functions: IdMap::new(),
            preamble_functions: IdMap::new(),
        }
    }

    /// The registry of the given schema and preamble functions.
    pub fn new(
        schema_functions: IdMap<DefinitionKey, ExecutableFunction>,
        preamble_functions: IdMap<usize, ExecutableFunction>,
    ) -> (registry: ExecutableFunctionRegistry)
        ensures
            registry.wf() == (schema_functions.wf() && preamble_functions.wf()),
            registry.schema() == schema_functions@,
            registry.preamble() == preamble_functions@,
    {
        ExecutableFunctionRegistry { schema_functions, preamble_functions }
    }

    /// The function `id`, if the registry holds it.
    pub fn get(&self, id: &FunctionID) -> (found: Option<&ExecutableFunction>)
        requires
            self.wf(),
        ensures
            match found {
                Some(function) => self.has(*id) && *function == self.function(*id),
                None => !self.has(*id),
            },
    {
        match id {
            FunctionID::Schema(key) => self.schema_functions.get(key),
            FunctionID::Preamble(index) => self.preamble_functions.get(index),
        }
    }

    /// Whether the registry holds the function `id`.
    pub fn contains(&self, id: &FunctionID) -> (found: bool)
        ensures
            found == self.has(*id),
    {
        match id {
            FunctionID::Schema(key) => self.schema_functions.contains_key(key),
            FunctionID::Preamble(index) => self.preamble_functions.contains_key(index),
        }
    }
}

} // verus!
