//! Fetch clauses: what to read out of each answer row.

use crate::concept::AttributeType;
use crate::executable_id::{id_after, next_executable_id, ExecutableIds};
use crate::function::ExecutableFunctionRegistry;
use crate::id_map::IdMap;
use crate::pattern::{FunctionID, ParameterID};
use crate::pipeline::FetchCompilationError;
use crate::variable::{Variable, VariablePosition};
use vstd::prelude::*;

verus! {

/// What one entry of a fetch clause reads: a variable, the attributes of a
/// given type that a variable's concept owns, or the result of a function.
#[derive(Debug, Clone, Copy, PartialEq, Eq, Structural)]
pub enum FetchSome {
    SingleVar(Variable),
    SingleAttribute(Variable, AttributeType),
    Function(FunctionID),
}

/// One entry of a fetch clause: the key of the entry, and what to read.
#[derive(Debug, Clone, Copy, PartialEq, Eq, Structural)]
pub struct FetchEntry {
    pub key: ParameterID,
    pub fetch: FetchSome,
}

/// A fetch clause whose variables have been given their types.
pub struct AnnotatedFetch {
    pub entries: Vec<FetchEntry>,
}

/// What one entry of a compiled fetch clause reads, by row position.
#[derive(Debug, Clone, Copy, PartialEq, Eq, Structural)]
pub enum FetchSomeInstruction {
    SingleVar(VariablePosition),
    SingleAttribute(VariablePosition, AttributeType),
    Function(FunctionID),
}

/// A compiled fetch clause.
pub struct ExecutableFetch {
    pub executable_id: u64,
    pub object_instruction: Vec<(ParameterID, FetchSomeInstruction)>,
}

/// What one entry compiles to: its instruction, or the error that the
/// variable it reads has no position, or that the function it calls is not
/// compiled.
pub open spec fn entry_instruction(
    fetch: FetchSome,
    positions: Map<Variable, VariablePosition>,
    functions: spec_fn(FunctionID) -> bool,
) -> Result<FetchSomeInstruction, FetchCompilationError> {
    match fetch {
        FetchSome::SingleVar(variable) => if positions.contains_key(variable) {
            Ok(FetchSomeInstruction::SingleVar(positions[variable]))
        } else {
            Err(FetchCompilationError::VariableNotAvailable { variable })
        },
        FetchSome::SingleAttribute(variable, attribute_type) => if positions.contains_key(
            variable,
        ) {
            Ok(FetchSomeInstruction::SingleAttribute(positions[variable], attribute_type))
        } else {
            Err(FetchCompilationError::VariableNotAvailable { variable })
        },
        FetchSome::Function(function_id) => if functions(function_id) {
            Ok(FetchSomeInstruction::Function(function_id))
        } else {
            Err(FetchCompilationError::FunctionNotFound { function_id })
        },
    }
}

/// What a fetch clause compiles to: the instructions of its entries, each
/// under its key and in order, or the error of the first entry that fails.
pub open spec fn fetch_outcome(
    entries: Seq<FetchEntry>,
    positions: Map<Variable, VariablePosition>,
    functions: spec_fn(FunctionID) -> bool,
) -> Result<Seq<(ParameterID, FetchSomeInstruction)>, FetchCompilationError>
    decreases entries.len(),
{
    if entries.len() == 0 {
        Ok(Seq::empty())
    } else {
        match fetch_outcome(entries.drop_last(), positions, functions) {
            Err(error) => Err(error),
            Ok(instructions) => match entry_instruction(
                entries.last().fetch,
                positions,
                functions,
            ) {
                Err(error) => Err(error),
                Ok(instruction) => Ok(instructions.push((entries.last().key, instruction))),
            },
        }
    }
}

/// The error of a prefix of the entries is the error of all of them.
pub proof fn lemma_fetch_error_extends(
    entries: Seq<FetchEntry>,
    upto: int,
    positions: Map<Variable, VariablePosition>,
    functions: spec_fn(FunctionID) -> bool,
)
    requires
        0 <= upto <= entries.len(),
        fetch_outcome(entries.take(upto), positions, functions) is Err,
    ensures
        fetch_outcome(entries, positions, functions) == fetch_outcome(
            entries.take(upto),
            positions,
            functions,
        ),
    decreases entries.len() - upto,
{
    if upto < entries.len() {
        let next = entries.take(upto + 1);
        assert(next.drop_last() =~= entries.take(upto));
        lemma_fetch_error_extends(entries, upto + 1, positions, functions);
    } else {
        assert(entries.take(upto) =~= entries);
    }
}

/// Compiles a fetch clause against the layout of the rows of the last stage
/// and the compiled functions, as [`fetch_outcome`] says.
pub fn compile_fetch(
    available_functions: &ExecutableFunctionRegistry,
    fetch: &AnnotatedFetch,
    variable_positions: &IdMap<Variable, VariablePosition>,
    ids: &mut ExecutableIds,
) -> (result: Result<ExecutableFetch, FetchCompilationError>)
    requires
        variable_positions.wf(),
    ensures
        match result {
            Ok(executable) => {
                &&& fetch_outcome(
                    fetch.entries@,
                    variable_positions@,
                    |id: FunctionID| available_functions.has(id),
                ) == Ok::<_, FetchCompilationError>(executable.object_instruction@)
                &&& executable.executable_id == old(ids).upcoming()
                &&& final(ids).upcoming() == id_after(old(ids).upcoming())
            },
            Err(error) => {
                &&& fetch_outcome(
                    fetch.entries@,
                    variable_positions@,
                    |id: FunctionID| available_functions.has(id),
                ) == Err::<Seq<(ParameterID, FetchSomeInstruction)>, _>(error)
                &&& final(ids).upcoming() == old(ids).upcoming()
            },
        },
{
    let ghost functions = |id: FunctionID| available_functions.has(id);
    let mut instructions: Vec<(ParameterID, FetchSomeInstruction)> = Vec::new();
    let mut index: usize = 0;
    while index < fetch.entries.len()
        invariant
            index <= fetch.entries@.len(),
            variable_positions.wf(),
            functions == |id: FunctionID| available_functions.has(id),
            fetch_outcome(fetch.entries@.take(index as int), variable_positions@, functions)
                == Ok::<_, FetchCompilationError>(instructions@),
            ids.upcoming() == old(ids).upcoming(),
        decreases fetch.entries@.len() - index,
    {
        proof {
            let upto = fetch.entries@.take(index + 1);
            assert(upto.drop_last() =~= fetch.entries@.take(index as int));
            assert(upto.last() == fetch.entries@[index as int]);
        }
        let entry = fetch.entries[index];
        let compiled = match entry.fetch {
            FetchSome::SingleVar(variable) => match variable_positions.get(&variable) {
                Some(position) => Ok(FetchSomeInstruction::SingleVar(*position)),
                None => Err(FetchCompilationError::VariableNotAvailable { variable }),
            },
            FetchSome::SingleAttribute(variable, attribute_type) => match variable_positions.get(
                &variable,
            ) {
                Some(position) => Ok(
                    FetchSomeInstruction::SingleAttribute(*position, attribute_type),
                ),
                None => Err(FetchCompilationError::VariableNotAvailable { variable }),
            },
            FetchSome::Function(function_id) => if available_functions.contains(&function_id) {
                Ok(FetchSomeInstruction::Function(function_id))
            } else {
                Err(FetchCompilationError::FunctionNotFound { function_id })
            },
        };
        match compiled {
            Ok(instruction) => {
                instructions.push((entry.key, instruction));
            },
            Err(error) => {
                proof {
                    lemma_fetch_error_extends(
                        fetch.entries@,
                        index + 1,
                        variable_positions@,
                        functions,
                    );
                }
                return Err(error);
            },
        }
        index += 1;
    }
    proof {
        assert(fetch.entries@.take(index as int) =~= fetch.entries@);
    }
    Ok(ExecutableFetch { executable_id: next_executable_id(ids), object_instruction: instructions })
}

} // verus!
