//! The planner of match stages: it lays out the row that a match produces.

use crate::executable_id::{id_after, next_executable_id, ExecutableIds};
use crate::id_map::IdMap;
use crate::pattern::Constraint;
use crate::row::{
    contains_variable, injective, lemma_row_width_bounds, lemma_row_width_extended, row_width,
    width_of,
};
use crate::stage::Block;
use crate::variable::{Variable, VariablePosition};
use vstd::prelude::*;

verus! {

/// A compiled match stage: the constraints to satisfy, and where each
/// variable of the rows it produces stands.
pub struct MatchExecutable {
    pub executable_id: u64,
    pub constraints: Vec<Constraint>,
    pub variable_positions: IdMap<Variable, VariablePosition>,
}

impl MatchExecutable {
    /// Where each variable of an output row stands.
    pub fn variable_positions(&self) -> (positions: &IdMap<Variable, VariablePosition>)
        ensures
            *positions == self.variable_positions,
    {
        &self.variable_positions
    }
}

/// The layout that the planner gives the rows of a match.
///
/// The input variables keep their positions. Then each selected variable that
/// the block mentions, in the order of selection, gets the next free position
/// behind the widest row so far, unless it has a position already.
pub open spec fn planned_positions(
    mentioned: Seq<Variable>,
    selected: Seq<Variable>,
    input: Map<Variable, VariablePosition>,
) -> Map<Variable, VariablePosition>
    decreases selected.len(),
{
    if selected.len() == 0 {
        input
    } else {
        let before = planned_positions(mentioned, selected.drop_last(), input);
        let variable = selected.last();
        if mentioned.contains(variable) && !before.contains_key(variable) {
            before.insert(variable, VariablePosition { position: row_width(before) as u32 })
        } else {
            before
        }
    }
}

/// A planned row is at most as much wider than the input row as there are
/// selected variables, and it holds the input variables where they were.
pub proof fn lemma_planned_positions(
    mentioned: Seq<Variable>,
    selected: Seq<Variable>,
    input: Map<Variable, VariablePosition>,
)
    requires
        row_width(input) + selected.len() <= u32::MAX + 1,
    ensures
        row_width(input) <= row_width(planned_positions(mentioned, selected, input))
            <= row_width(input) + selected.len(),
        forall|variable: Variable| #[trigger]
            input.contains_key(variable) ==> planned_positions(
                mentioned,
                selected,
                input,
            ).contains_key(variable) && planned_positions(mentioned, selected, input)[variable]
                == input[variable],
        forall|variable: Variable| #[trigger]
            planned_positions(mentioned, selected, input).contains_key(variable)
                <==> input.contains_key(variable) || (selected.contains(variable)
                && mentioned.contains(variable)),
        injective(input) ==> injective(planned_positions(mentioned, selected, input)),
    decreases selected.len(),
{
    if selected.len() > 0 {
        let front = selected.drop_last();
        lemma_planned_positions(mentioned, front, input);
        let before = planned_positions(mentioned, front, input);
        let variable = selected.last();
        let after = planned_positions(mentioned, selected, input);
        if mentioned.contains(variable) && !before.contains_key(variable) {
            lemma_row_width_extended(
                before,
                variable,
                VariablePosition { position: row_width(before) as u32 },
            );
            lemma_row_width_bounds(before);
            if injective(input) {
                assert forall|one: Variable, other: Variable|
                    after.contains_key(one) && after.contains_key(other) && #[trigger] after[one]
                        == #[trigger] after[other] implies one == other by {
                    if one != variable {
                        assert(before.contains_key(one));
                    }
                    if other != variable {
                        assert(before.contains_key(other));
                    }
                }
            }
        }
        assert forall|other: Variable| #[trigger]
            after.contains_key(other) <==> input.contains_key(other) || (selected.contains(other)
                && mentioned.contains(other)) by {
            if selected.contains(other) {
                let at = selected.index_of(other);
                if at < front.len() {
                    assert(front[at] == other);
                }
            }
            if front.contains(other) {
                let at = front.index_of(other);
                assert(selected[at] == other);
            }
            assert(selected[selected.len() - 1] == variable);
        }
    }
}

/// Plans a match: lays out the rows that it produces. See
/// [`planned_positions`]. The rows must not grow wider than positions can
/// count.
pub fn compile(
    block: &Block,
    input_variables: &IdMap<Variable, VariablePosition>,
    selected_variables: &Vec<Variable>,
    ids: &mut ExecutableIds,
) -> (plan: MatchExecutable)
    requires
        input_variables.wf(),
        row_width(input_variables@) + selected_variables@.len() <= u32::MAX + 1,
    ensures
        plan.variable_positions.wf(),
        injective(input_variables@) ==> injective(plan.variable_positions@),
        plan.variable_positions@ == planned_positions(
            block.spec_variables(),
            selected_variables@,
            input_variables@,
        ),
        plan.constraints@ == block.conjunction.constraints@,
        plan.executable_id == old(ids).upcoming(),
        final(ids).upcoming() == id_after(old(ids).upcoming()),
{
    let mentioned = block.variables();
    let mut positions = input_variables.clone();
    let mut width = width_of(&positions);
    let mut index: usize = 0;
    while index < selected_variables.len()
        invariant
            index <= selected_variables@.len(),
            positions.wf(),
            width == row_width(positions@),
            width <= row_width(input_variables@) + index,
            row_width(input_variables@) + selected_variables@.len() <= u32::MAX + 1,
            positions@ == planned_positions(
                mentioned@,
                selected_variables@.take(index as int),
                input_variables@,
            ),
        decreases selected_variables@.len() - index,
    {
        let variable = selected_variables[index];
        proof {
            let upto = selected_variables@.take(index + 1);
            assert(upto.drop_last() =~= selected_variables@.take(index as int));
            assert(upto.last() == variable);
        }
        if contains_variable(&mentioned, variable) && !positions.contains_key(&variable) {
            proof {
                lemma_row_width_extended(
                    positions@,
                    variable,
                    VariablePosition { position: width as u32 },
                );
            }
            positions.insert(variable, VariablePosition::new(width as u32));
            width += 1;
        }
        index += 1;
    }
    proof {
        assert(selected_variables@.take(index as int) =~= selected_variables@);
        lemma_planned_positions(mentioned@, selected_variables@, input_variables@);
    }
    MatchExecutable {
        executable_id: next_executable_id(ids),
        constraints: block.conjunction.constraints.clone(),
        variable_positions: positions,
    }
}

} // verus!
