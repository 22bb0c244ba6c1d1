//! Reductions: aggregates over the rows of a group.

use crate::encoding::ValueType;
use crate::executable_id::{id_after, next_executable_id, ExecutableIds};
use crate::id_map::{IdMap, IrID};
use crate::variable::{Variable, VariablePosition};
use vstd::prelude::*;

verus! {

/// An aggregate, over the identifier that it reads (none for a plain count).
#[derive(Debug, Clone, Copy)]
pub enum ReduceInstruction<ID: IrID> {
    Count,
    CountVar(ID),
    SumLong(ID),
    SumDouble(ID),
    MaxLong(ID),
    MaxDouble(ID),
    MinLong(ID),
    MinDouble(ID),
    MeanLong(ID),
    MeanDouble(ID),
    MedianLong(ID),
    MedianDouble(ID),
    StdLong(ID),
    StdDouble(ID),
}

/// The identifier that an instruction reads.
pub open spec fn instruction_id<ID: IrID>(instruction: ReduceInstruction<ID>) -> Option<ID> {
    match instruction {
        ReduceInstruction::Count => None,
        ReduceInstruction::CountVar(id) => Some(id),
        ReduceInstruction::SumLong(id) => Some(id),
        ReduceInstruction::SumDouble(id) => Some(id),
        ReduceInstruction::MaxLong(id) => Some(id),
        ReduceInstruction::MaxDouble(id) => Some(id),
        ReduceInstruction::MinLong(id) => Some(id),
        ReduceInstruction::MinDouble(id) => Some(id),
        ReduceInstruction::MeanLong(id) => Some(id),
        ReduceInstruction::MeanDouble(id) => Some(id),
        ReduceInstruction::MedianLong(id) => Some(id),
        ReduceInstruction::MedianDouble(id) => Some(id),
        ReduceInstruction::StdLong(id) => Some(id),
        ReduceInstruction::StdDouble(id) => Some(id),
    }
}

/// Whether an instruction yields a long: the counts, and the sum, maximum and
/// minimum of longs. Every other instruction yields a double.
pub open spec fn yields_long<ID: IrID>(instruction: ReduceInstruction<ID>) -> bool {
    ||| instruction is Count
    ||| instruction is CountVar
    ||| instruction is SumLong
    ||| instruction is MaxLong
    ||| instruction is MinLong
}

/// The same aggregate over what `mapping` holds for its identifier.
pub open spec fn instruction_mapped<ID: IrID, T: IrID>(
    instruction: ReduceInstruction<ID>,
    mapping: Map<ID, T>,
) -> ReduceInstruction<T> {
    match instruction {
        ReduceInstruction::Count => ReduceInstruction::Count,
        ReduceInstruction::CountVar(id) => ReduceInstruction::CountVar(mapping[id]),
        ReduceInstruction::SumLong(id) => ReduceInstruction::SumLong(mapping[id]),
        ReduceInstruction::SumDouble(id) => ReduceInstruction::SumDouble(mapping[id]),
        ReduceInstruction::MaxLong(id) => ReduceInstruction::MaxLong(mapping[id]),
        ReduceInstruction::MaxDouble(id) => ReduceInstruction::MaxDouble(mapping[id]),
        ReduceInstruction::MinLong(id) => ReduceInstruction::MinLong(mapping[id]),
        ReduceInstruction::MinDouble(id) => ReduceInstruction::MinDouble(mapping[id]),
        ReduceInstruction::MeanLong(id) => ReduceInstruction::MeanLong(mapping[id]),
        ReduceInstruction::MeanDouble(id) => ReduceInstruction::MeanDouble(mapping[id]),
        ReduceInstruction::MedianLong(id) => ReduceInstruction::MedianLong(mapping[id]),
        ReduceInstruction::MedianDouble(id) => ReduceInstruction::MedianDouble(mapping[id]),
        ReduceInstruction::StdLong(id) => ReduceInstruction::StdLong(mapping[id]),
        ReduceInstruction::StdDouble(id) => ReduceInstruction::StdDouble(mapping[id]),
    }
}

impl<ID: IrID> ReduceInstruction<ID> {
    /// The identifier that the instruction reads, if it reads one.
    pub fn id(&self) -> (id: Option<ID>)
        ensures
            id == instruction_id(*self),
    {
        match *self {
            Self::Count => None,
            Self::CountVar(id)
            | Self::SumLong(id)
            | Self::SumDouble(id)
            | Self::MaxLong(id)
            | Self::MaxDouble(id)
            | Self::MinLong(id)
            | Self::MinDouble(id)
            | Self::MeanLong(id)
            | Self::MeanDouble(id)
            | Self::MedianLong(id)
            | Self::MedianDouble(id)
            | Self::StdLong(id)
            | Self::StdDouble(id) => Some(id),
        }
    }

    /// The type of the value that the instruction yields.
    pub fn output_type(&self) -> (value_type: ValueType)
        ensures
            value_type == (if yields_long(*self) {
                ValueType::Long
            } else {
                ValueType::Double
            }),
    {
        match self {
            Self::Count => ValueType::Long,
            Self::CountVar(_) => ValueType::Long,
            Self::SumLong(_) => ValueType::Long,
            Self::SumDouble(_) => ValueType::Double,
            Self::MaxLong(_) => ValueType::Long,
            Self::MaxDouble(_) => ValueType::Double,
            Self::MinLong(_) => ValueType::Long,
            Self::MinDouble(_) => ValueType::Double,
            Self::MeanLong(_) => ValueType::Double,
            Self::MeanDouble(_) => ValueType::Double,
            Self::MedianLong(_) => ValueType::Double,
            Self::MedianDouble(_) => ValueType::Double,
            Self::StdLong(_) => ValueType::Double,
            Self::StdDouble(_) => ValueType::Double,
        }
    }

    /// The same aggregate, over what `mapping` holds for the identifier that
    /// the instruction reads. That identifier must be a key of `mapping`.
    pub fn map<T: IrID>(self, mapping: &IdMap<ID, T>) -> (mapped: ReduceInstruction<T>)
        requires
            mapping.wf(),
            instruction_id(self) matches Some(id) ==> mapping@.contains_key(id),
        ensures
            mapped == instruction_mapped(self, mapping@),
    {
        match self {
            ReduceInstruction::Count => ReduceInstruction::Count,
            ReduceInstruction::CountVar(id) => ReduceInstruction::CountVar(
                *mapping.get(&id).unwrap(),
            ),
            ReduceInstruction::SumLong(id) => ReduceInstruction::SumLong(
                *mapping.get(&id).unwrap(),
            ),
            ReduceInstruction::SumDouble(id) => ReduceInstruction::SumDouble(
                *mapping.get(&id).unwrap(),
            ),
            ReduceInstruction::MaxLong(id) => ReduceInstruction::MaxLong(
                *mapping.get(&id).unwrap(),
            ),
            ReduceInstruction::MaxDouble(id) => ReduceInstruction::MaxDouble(
                *mapping.get(&id).unwrap(),
            ),
            ReduceInstruction::MinLong(id) => ReduceInstruction::MinLong(
                *mapping.get(&id).unwrap(),
            ),
            ReduceInstruction::MinDouble(id) => ReduceInstruction::MinDouble(
                *mapping.get(&id).unwrap(),
            ),
            ReduceInstruction::MeanLong(id) => ReduceInstruction::MeanLong(
                *mapping.get(&id).unwrap(),
            ),
            ReduceInstruction::MeanDouble(id) => ReduceInstruction::MeanDouble(
                *mapping.get(&id).unwrap(),
            ),
            ReduceInstruction::MedianLong(id) => ReduceInstruction::MedianLong(
                *mapping.get(&id).unwrap(),
            ),
            ReduceInstruction::MedianDouble(id) => ReduceInstruction::MedianDouble(
                *mapping.get(&id).unwrap(),
            ),
            ReduceInstruction::StdLong(id) => ReduceInstruction::StdLong(
                *mapping.get(&id).unwrap(),
            ),
            ReduceInstruction::StdDouble(id) => ReduceInstruction::StdDouble(
                *mapping.get(&id).unwrap(),
            ),
        }
    }
}

/// What a reduce stage does to the rows of one group: where it finds the
/// grouping variables in an input row, and the aggregates it computes.
pub struct ReduceRowsExecutable {
    pub reductions: Vec<ReduceInstruction<VariablePosition>>,
    pub input_group_positions: Vec<VariablePosition>,
}

/// A compiled reduce stage. An output row holds the grouping variables
/// first, then one value for each reduction.
pub struct ReduceExecutable {
    pub executable_id: u64,
    pub reduce_rows_executable: ReduceRowsExecutable,
    pub output_row_mapping: IdMap<Variable, VariablePosition>,
}

impl ReduceExecutable {
    /// The reduce stage with the next executable identity.
    pub fn new(
        rows_executable: ReduceRowsExecutable,
        output_row_mapping: IdMap<Variable, VariablePosition>,
        ids: &mut ExecutableIds,
    ) -> (executable: ReduceExecutable)
        ensures
            executable.executable_id == old(ids).upcoming(),
            final(ids).upcoming() == id_after(old(ids).upcoming()),
            executable.reduce_rows_executable == rows_executable,
            executable.output_row_mapping == output_row_mapping,
    {
        ReduceExecutable {
            executable_id: next_executable_id(ids),
            reduce_rows_executable: rows_executable,
            output_row_mapping,
        }
    }
}

} // verus!
