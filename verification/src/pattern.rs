//! Constraints of a pattern, and the identifiers of query parameters.

use crate::encoding::DefinitionKey;
use crate::id_map::IrID;
use crate::variable::Variable;
use vstd::prelude::*;

verus! {

/// The identity of a function: one of the schema, by its definition key, or
/// one of a query's preamble, by its index there.
#[derive(Debug, Clone, Copy, PartialEq, Eq, Hash, Structural)]
pub enum FunctionID {
    Schema(DefinitionKey),
    Preamble(usize),
}

impl IrID for FunctionID {
    fn same_id(&self, other: &Self) -> (same: bool) {
        match (*self, *other) {
            (FunctionID::Schema(left), FunctionID::Schema(right)) => left.id == right.id,
            (FunctionID::Preamble(left), FunctionID::Preamble(right)) => left == right,
            _ => false,
        }
    }
}

/// `assigned = function_id(..)`: a call of a function.
#[derive(Debug, Clone, Copy, PartialEq, Eq, Structural)]
pub struct FunctionCall {
    pub function_id: FunctionID,
    pub assigned: Variable,
}

/// `thing isa type_`.
#[derive(Debug, Clone, Copy, PartialEq, Eq, Structural)]
pub struct Isa {
    pub thing: Variable,
    pub type_: Variable,
}

/// `owner has attribute`.
#[derive(Debug, Clone, Copy, PartialEq, Eq, Structural)]
pub struct Has {
    pub owner: Variable,
    pub attribute: Variable,
}

/// `relation links (role_type: player)`, over the identifiers of its three
/// variables.
#[derive(Debug, Clone, Copy, PartialEq, Eq, Structural)]
pub struct Links<ID> {
    pub relation: ID,
    pub player: ID,
    pub role_type: ID,
}

impl<ID: Copy> Links<ID> {
    /// The relation.
    pub fn relation(&self) -> (relation: ID)
        ensures
            relation == self.relation,
    {
        self.relation
    }

    /// The player of a role in the relation.
    pub fn player(&self) -> (player: ID)
        ensures
            player == self.player,
    {
        self.player
    }

    /// The type of the role that the player plays.
    pub fn role_type(&self) -> (role_type: ID)
        ensures
            role_type == self.role_type,
    {
        self.role_type
    }
}

/// One constraint of a conjunction.
#[derive(Debug, Clone, Copy, PartialEq, Eq, Structural)]
pub enum Constraint {
    Isa(Isa),
    Has(Has),
    Links(Links<Variable>),
    FunctionCall(FunctionCall),
}

/// The variables that a constraint mentions, in the order it writes them.
pub open spec fn constraint_variables(constraint: Constraint) -> Seq<Variable> {
    match constraint {
        Constraint::Isa(isa) => seq![isa.thing, isa.type_],
        Constraint::Has(has) => seq![has.owner, has.attribute],
        Constraint::Links(links) => seq![links.relation, links.player, links.role_type],
        Constraint::FunctionCall(call) => seq![call.assigned],
    }
}

impl Constraint {
    /// The variables that the constraint mentions.
    pub fn variables(&self) -> (variables: Vec<Variable>)
        ensures
            variables@ == constraint_variables(*self),
    {
        let mut variables: Vec<Variable> = Vec::new();
        match self {
            Constraint::Isa(isa) => {
                variables.push(isa.thing);
                variables.push(isa.type_);
            },
            Constraint::Has(has) => {
                variables.push(has.owner);
                variables.push(has.attribute);
            },
            Constraint::Links(links) => {
                variables.push(links.relation);
                variables.push(links.player);
                variables.push(links.role_type);
            },
            Constraint::FunctionCall(call) => {
                variables.push(call.assigned);
            },
        }
        assert(variables@ =~= constraint_variables(*self));
        variables
    }
}

/// The identifier of a constant that a query carries: a value, an instance
/// identifier, or a key of a fetch clause. Each kind counts from zero.
#[derive(Debug, Clone, Copy, PartialEq, Eq, Hash, Structural)]
pub enum ParameterID {
    Value(usize),
    Iid(usize),
    FetchKey(usize),
}

/// An aggregate over the answers of a pipeline, before positions are known.
#[derive(Debug, Clone, Copy, PartialEq, Eq, Structural)]
pub enum Reducer {
    Count,
    CountVar(Variable),
    Sum(Variable),
    Max(Variable),
    Mean(Variable),
    Median(Variable),
    Min(Variable),
    Std(Variable),
}

} // verus!
