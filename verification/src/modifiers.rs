//! The compiled forms of the stages that only reshape the stream of rows.

use crate::executable_id::{id_after, next_executable_id, ExecutableIds};
use crate::id_map::IdMap;
use crate::id_set::IdSet;
use crate::stage::SortVariable;
use crate::variable::{Variable, VariablePosition};
use vstd::prelude::*;

verus! {

/// A compiled `select`: the positions that stay, and the variables that stay
/// with their positions.
pub struct SelectExecutable {
    pub executable_id: u64,
    pub retained_positions: IdSet<VariablePosition>,
    pub output_row_mapping: IdMap<Variable, VariablePosition>,
}

impl SelectExecutable {
    /// The select stage with the next executable identity.
    pub fn new(
        retained_positions: IdSet<VariablePosition>,
        output_row_mapping: IdMap<Variable, VariablePosition>,
        ids: &mut ExecutableIds,
    ) -> (executable: SelectExecutable)
        ensures
            executable.executable_id == old(ids).upcoming(),
            final(ids).upcoming() == id_after(old(ids).upcoming()),
            executable.retained_positions == retained_positions,
            executable.output_row_mapping == output_row_mapping,
    {
        SelectExecutable {
            executable_id: next_executable_id(ids),
            retained_positions,
            output_row_mapping,
        }
    }
}

/// A compiled `sort`: the variables to sort on, in order; rows keep their
/// layout.
pub struct SortExecutable {
    pub executable_id: u64,
    pub sort_on: Vec<SortVariable>,
    pub output_row_mapping: IdMap<Variable, VariablePosition>,
}

impl SortExecutable {
    /// The sort stage with the next executable identity.
    pub fn new(
        sort_on: Vec<SortVariable>,
        output_row_mapping: IdMap<Variable, VariablePosition>,
        ids: &mut ExecutableIds,
    ) -> (executable: SortExecutable)
        ensures
            executable.executable_id == old(ids).upcoming(),
            final(ids).upcoming() == id_after(old(ids).upcoming()),
            executable.sort_on == sort_on,
            executable.output_row_mapping == output_row_mapping,
    {
        SortExecutable { executable_id: next_executable_id(ids), sort_on, output_row_mapping }
    }
}

/// A compiled `offset`: how many rows to skip; rows keep their layout.
pub struct OffsetExecutable {
    pub executable_id: u64,
    pub offset: u64,
    pub output_row_mapping: IdMap<Variable, VariablePosition>,
}

impl OffsetExecutable {
    /// The offset stage with the next executable identity.
    pub fn new(
        offset: u64,
        output_row_mapping: IdMap<Variable, VariablePosition>,
        ids: &mut ExecutableIds,
    ) -> (executable: OffsetExecutable)
        ensures
            executable.executable_id == old(ids).upcoming(),
            final(ids).upcoming() == id_after(old(ids).upcoming()),
            executable.offset == offset,
            executable.output_row_mapping == output_row_mapping,
    {
        OffsetExecutable { executable_id: next_executable_id(ids), offset, output_row_mapping }
    }
}

/// A compiled `limit`: how many rows to keep; rows keep their layout.
pub struct LimitExecutable {
    pub executable_id: u64,
    pub limit: u64,
    pub output_row_mapping: IdMap<Variable, VariablePosition>,
}

impl LimitExecutable {
    /// The limit stage with the next executable identity.
    pub fn new(
        limit: u64,
        output_row_mapping: IdMap<Variable, VariablePosition>,
        ids: &mut ExecutableIds,
    ) -> (executable: LimitExecutable)
        ensures
            executable.executable_id == old(ids).upcoming(),
            final(ids).upcoming() == id_after(old(ids).upcoming()),
            executable.limit == limit,
            executable.output_row_mapping == output_row_mapping,
    {
        LimitExecutable { executable_id: next_executable_id(ids), limit, output_row_mapping }
    }
}

/// A compiled `require`: the positions that must be bound; rows keep their
/// layout.
pub struct RequireExecutable {
    pub executable_id: u64,
    pub required: IdSet<VariablePosition>,
    pub output_row_mapping: IdMap<Variable, VariablePosition>,
}

impl RequireExecutable {
    /// The require stage with the next executable identity.
    pub fn new(
        required: IdSet<VariablePosition>,
        output_row_mapping: IdMap<Variable, VariablePosition>,
        ids: &mut ExecutableIds,
    ) -> (executable: RequireExecutable)
        ensures
            executable.executable_id == old(ids).upcoming(),
            final(ids).upcoming() == id_after(old(ids).upcoming()),
            executable.required == required,
            executable.output_row_mapping == output_row_mapping,
    {
        RequireExecutable { executable_id: next_executable_id(ids), required, output_row_mapping }
    }
}

} // verus!
