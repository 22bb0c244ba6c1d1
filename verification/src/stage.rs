//! The annotated stages of a pipeline: what the compiler takes in.

use crate::concept::Type;
use crate::id_map::IdMap;
use crate::pattern::{constraint_variables, Constraint, Reducer};
use crate::reduce::{instruction_id, ReduceInstruction};
use crate::registry::VariableRegistry;
use crate::variable::Variable;
use vstd::prelude::*;

verus! {

/// A conjunction of constraints.
pub struct Conjunction {
    pub constraints: Vec<Constraint>,
}

impl Conjunction {
    /// The constraints, in the order in which they were written.
    pub fn constraints(&self) -> (constraints: &Vec<Constraint>)
        ensures
            *constraints == self.constraints,
    {
        &self.constraints
    }
}

/// The pattern of a match, insert or delete stage.
pub struct Block {
    pub conjunction: Conjunction,
}

/// The variables that a list of constraints mentions, constraint by
/// constraint, repeats included.
pub open spec fn variables_of(constraints: Seq<Constraint>) -> Seq<Variable>
    decreases constraints.len(),
{
    if constraints.len() == 0 {
        Seq::empty()
    } else {
        variables_of(constraints.drop_last()) + constraint_variables(constraints.last())
    }
}

impl Block {
    /// The conjunction of the block.
    pub fn conjunction(&self) -> (conjunction: &Conjunction)
        ensures
            *conjunction == self.conjunction,
    {
        &self.conjunction
    }

    /// The variables that the block mentions.
    pub open spec fn spec_variables(&self) -> Seq<Variable> {
        variables_of(self.conjunction.constraints@)
    }

    /// The variables that the block mentions, constraint by constraint,
    /// repeats included.
    pub fn variables(&self) -> (variables: Vec<Variable>)
        ensures
            variables@ == self.spec_variables(),
    {
        let mut variables: Vec<Variable> = Vec::new();
        let mut index: usize = 0;
        let constraints = &self.conjunction.constraints;
        while index < constraints.len()
            invariant
                index <= constraints@.len(),
                variables@ == variables_of(constraints@.take(index as int)),
            decreases constraints@.len() - index,
        {
            let mut mentioned = constraints[index].variables();
            proof {
                let upto = constraints@.take(index + 1);
                assert(upto.drop_last() =~= constraints@.take(index as int));
                assert(upto.last() == constraints@[index as int]);
            }
            variables.append(&mut mentioned);
            index += 1;
        }
        proof {
            assert(constraints@.take(index as int) =~= constraints@);
        }
        variables
    }
}

/// The types that each variable of a block can take.
pub struct TypeAnnotations {
    pub variable_types: IdMap<Variable, Vec<Type>>,
}

impl TypeAnnotations {
    /// Well-formedness of the annotations.
    pub open spec fn wf(&self) -> bool {
        self.variable_types.wf()
    }

    /// The types of each annotated variable.
    pub open spec fn types(&self) -> Map<Variable, Seq<Type>> {
        self.variable_types@.map_values(|types: Vec<Type>| types@)
    }
}

/// `select`: keep the given variables.
pub struct Select {
    pub variables: Vec<Variable>,
}

/// A variable to sort by, and the direction.
#[derive(Debug, Clone, Copy, PartialEq, Eq, Structural)]
pub enum SortVariable {
    Ascending(Variable),
    Descending(Variable),
}

impl SortVariable {
    /// The variable that is sorted by.
    pub open spec fn spec_variable(&self) -> Variable {
        match *self {
            SortVariable::Ascending(variable) => variable,
            SortVariable::Descending(variable) => variable,
        }
    }

    /// The variable that is sorted by.
    pub fn variable(&self) -> (variable: Variable)
        ensures
            variable == self.spec_variable(),
    {
        match *self {
            SortVariable::Ascending(variable) => variable,
            SortVariable::Descending(variable) => variable,
        }
    }
}

/// `sort`: order the rows by the given variables.
pub struct Sort {
    pub variables: Vec<SortVariable>,
}

/// `offset`: skip the first rows.
pub struct Offset {
    pub offset: u64,
}

impl Offset {
    /// How many rows are skipped.
    pub fn offset(&self) -> (offset: u64)
        ensures
            offset == self.offset,
    {
        self.offset
    }
}

/// `limit`: keep the first rows only.
pub struct Limit {
    pub limit: u64,
}

impl Limit {
    /// How many rows are kept at most.
    pub fn limit(&self) -> (limit: u64)
        ensures
            limit == self.limit,
    {
        self.limit
    }
}

/// `require`: drop the rows in which one of the given variables is unbound.
pub struct Require {
    pub variables: Vec<Variable>,
}

/// A reduction and the variable that takes its result.
#[derive(Debug, Clone, Copy)]
pub struct AssignedReduction {
    pub assigned: Variable,
    pub reduction: Reducer,
}

/// `reduce`: aggregate the rows of each group.
pub struct Reduce {
    pub assigned_reductions: Vec<AssignedReduction>,
    pub within_group: Vec<Variable>,
}

/// A stage whose variables have been given their types.
pub enum AnnotatedStage {
    Match { block: Block, block_annotations: TypeAnnotations },
    Insert { block: Block, annotations: TypeAnnotations },
    Delete { block: Block, deleted_variables: Vec<Variable>, annotations: TypeAnnotations },
    Select(Select),
    Sort(Sort),
    Offset(Offset),
    Limit(Limit),
    Require(Require),
    Reduce(Reduce, Vec<ReduceInstruction<Variable>>),
}

/// The variables that a list of typed reducers reads, in order.
pub open spec fn reducer_inputs(reducers: Seq<ReduceInstruction<Variable>>) -> Seq<Variable>
    decreases reducers.len(),
{
    if reducers.len() == 0 {
        Seq::empty()
    } else {
        let front = reducer_inputs(reducers.drop_last());
        match instruction_id(reducers.last()) {
            Some(variable) => front.push(variable),
            None => front,
        }
    }
}

/// The variables of a stage among which the named ones are referenced: those
/// of its block, or those that a modifier lists.
pub open spec fn stage_variables(stage: AnnotatedStage) -> Seq<Variable> {
    match stage {
        AnnotatedStage::Match { block, .. } => block.spec_variables(),
        AnnotatedStage::Insert { block, .. } => block.spec_variables(),
        AnnotatedStage::Delete { block, .. } => block.spec_variables(),
        AnnotatedStage::Select(select) => select.variables@,
        AnnotatedStage::Sort(sort) => sort.variables@.map_values(
            |sorted: SortVariable| sorted.spec_variable(),
        ),
        AnnotatedStage::Offset(_) => Seq::empty(),
        AnnotatedStage::Limit(_) => Seq::empty(),
        AnnotatedStage::Require(require) => require.variables@,
        AnnotatedStage::Reduce(reduce, reducers) => reduce.within_group@ + reducer_inputs(
            reducers@,
        ),
    }
}

/// The variables of a stage that have a name.
pub open spec fn named_referenced(stage: AnnotatedStage, names: Map<Variable, Seq<char>>) -> Seq<
    Variable,
> {
    stage_variables(stage).filter(|variable: Variable| names.contains_key(variable))
}

impl AnnotatedStage {
    /// Well-formedness: the annotations of the stage are well-formed.
    pub open spec fn wf(&self) -> bool {
        match self {
            AnnotatedStage::Match { block_annotations, .. } => block_annotations.wf(),
            AnnotatedStage::Insert { annotations, .. } => annotations.wf(),
            AnnotatedStage::Delete { annotations, .. } => annotations.wf(),
            _ => true,
        }
    }

    /// The variables of the stage, in the order in which it mentions them.
    pub fn referenced_variables(&self) -> (variables: Vec<Variable>)
        ensures
            variables@ == stage_variables(*self),
    {
        match self {
            AnnotatedStage::Match { block, .. } => block.variables(),
            AnnotatedStage::Insert { block, .. } => block.variables(),
            AnnotatedStage::Delete { block, .. } => block.variables(),
            AnnotatedStage::Select(select) => select.variables.clone(),
            AnnotatedStage::Sort(sort) => {
                let mut variables: Vec<Variable> = Vec::new();
                let mut index: usize = 0;
                let ghost project = |sorted: SortVariable| sorted.spec_variable();
                while index < sort.variables.len()
                    invariant
                        index <= sort.variables@.len(),
                        variables@ == sort.variables@.take(index as int).map_values(project),
                        project == |sorted: SortVariable| sorted.spec_variable(),
                    decreases sort.variables@.len() - index,
                {
                    variables.push(sort.variables[index].variable());
                    proof {
                        assert(sort.variables@.take(index + 1).map_values(project)
                            =~= sort.variables@.take(index as int).map_values(project).push(
                            sort.variables@[index as int].spec_variable(),
                        ));
                    }
                    index += 1;
                }
                proof {
                    assert(sort.variables@.take(index as int) =~= sort.variables@);
                }
                variables
            },
            AnnotatedStage::Offset(_) => Vec::new(),
            AnnotatedStage::Limit(_) => Vec::new(),
            AnnotatedStage::Require(require) => require.variables.clone(),
            AnnotatedStage::Reduce(reduce, reducers) => {
                let mut variables: Vec<Variable> = reduce.within_group.clone();
                let mut index: usize = 0;
                while index < reducers.len()
                    invariant
                        index <= reducers@.len(),
                        variables@ == reduce.within_group@ + reducer_inputs(
                            reducers@.take(index as int),
                        ),
                    decreases reducers@.len() - index,
                {
                    proof {
                        let upto = reducers@.take(index + 1);
                        assert(upto.drop_last() =~= reducers@.take(index as int));
                        assert(upto.last() == reducers@[index as int]);
                    }
                    match reducers[index].id() {
                        Some(variable) => {
                            variables.push(variable);
                            assert(variables@ =~= reduce.within_group@ + reducer_inputs(
                                reducers@.take(index + 1),
                            ));
                        },
                        None => {},
                    }
                    index += 1;
                }
                proof {
                    assert(reducers@.take(index as int) =~= reducers@);
                }
                variables
            },
        }
    }

    /// The variables of the stage that have a name in `variable_registry`.
    pub fn named_referenced_variables(&self, variable_registry: &VariableRegistry) -> (named: Vec<
        Variable,
    >)
        ensures
            named@ == named_referenced(*self, variable_registry.names()),
    {
        let variables = self.referenced_variables();
        let mut named: Vec<Variable> = Vec::new();
        let mut index: usize = 0;
        let ghost keep = |variable: Variable| variable_registry.names().contains_key(variable);
        while index < variables.len()
            invariant
                index <= variables@.len(),
                named@ == variables@.take(index as int).filter(keep),
                keep == |variable: Variable| variable_registry.names().contains_key(variable),
            decreases variables@.len() - index,
        {
            let variable = variables[index];
            proof {
                let upto = variables@.take(index + 1);
                assert(upto.drop_last() =~= variables@.take(index as int));
                assert(upto.last() == variable);
                reveal(Seq::filter);
            }
            if variable_registry.has_variable_as_named(&variable) {
                named.push(variable);
            }
            index += 1;
        }
        proof {
            assert(variables@.take(index as int) =~= variables@);
        }
        named
    }
}

} // verus!
