//! Rows, tuples and the modes of the variables of an instruction.

use crate::concept::Type;
use crate::id_map::{IdMap, IrID};
use crate::thing::{ConceptReadError, Link, LinkResult, Object, Thing};
use crate::variable::{Variable, VariablePosition};
use vstd::prelude::*;

verus! {

/// A variable as an executor sees it: one that stands in the rows, at a
/// position, or one that is used inside an instruction only.
#[derive(Debug, Clone, Copy, PartialEq, Eq, Hash, Structural)]
pub enum ExecutorVariable {
    RowPosition(VariablePosition),
    Internal(Variable),
}

impl ExecutorVariable {
    /// The position of the variable in the rows, if it stands there.
    pub fn as_position(&self) -> (position: Option<VariablePosition>)
        ensures
            position == (match *self {
                ExecutorVariable::RowPosition(position) => Some(position),
                ExecutorVariable::Internal(_) => None,
            }),
    {
        match *self {
            ExecutorVariable::RowPosition(position) => Some(position),
            ExecutorVariable::Internal(_) => None,
        }
    }
}

impl IrID for ExecutorVariable {
    fn same_id(&self, other: &Self) -> (same: bool) {
        match (*self, *other) {
            (
                ExecutorVariable::RowPosition(left),
                ExecutorVariable::RowPosition(right),
            ) => left.position == right.position,
            (ExecutorVariable::Internal(left), ExecutorVariable::Internal(right)) => left.id
                == right.id && left.anonymous == right.anonymous,
            _ => false,
        }
    }
}

/// What an instruction does with a variable: take it from the input row,
/// produce it, count it, or only check it.
#[derive(Debug, Clone, Copy, PartialEq, Eq, Structural)]
pub enum VariableMode {
    Input,
    Output,
    Count,
    Check,
}

/// The modes of the variables of an instruction.
pub struct VariableModes {
    pub modes: IdMap<ExecutorVariable, VariableMode>,
}

impl VariableModes {
    /// Well-formedness of the map of modes.
    pub open spec fn wf(&self) -> bool {
        self.modes.wf()
    }

    /// Whether `variable` is taken from the input row.
    pub open spec fn is_input(&self, variable: ExecutorVariable) -> bool {
        self.modes@.contains_key(variable) && self.modes@[variable] == VariableMode::Input
    }

    /// Whether every variable with a mode is taken from the input row.
    pub open spec fn spec_all_inputs(&self) -> bool {
        forall|variable: ExecutorVariable| #[trigger]
            self.modes@.contains_key(variable) ==> self.modes@[variable] == VariableMode::Input
    }

    /// No modes.
    pub fn new() -> (modes: VariableModes)
        ensures
            modes.wf(),
            modes.modes@ == Map::<ExecutorVariable, VariableMode>::empty(),
    {
        VariableModes { modes: IdMap::new() }
    }

    /// Gives `variable` the mode `mode`.
    pub fn insert(&mut self, variable: ExecutorVariable, mode: VariableMode)
        requires
            old(self).wf(),
        ensures
            final(self).wf(),
            final(self).modes@ == old(self).modes@.insert(variable, mode),
    {
        self.modes.insert(variable, mode);
    }

    /// The mode of `variable`, if it has one.
    pub fn get(&self, variable: ExecutorVariable) -> (mode: Option<VariableMode>)
        requires
            self.wf(),
        ensures
            mode == (if self.modes@.contains_key(variable) {
                Some(self.modes@[variable])
            } else {
                None
            }),
    {
        match self.modes.get(&variable) {
            Some(mode) => Some(*mode),
            None => None,
        }
    }

    /// Whether `variable` is taken from the input row.
    pub fn is_bound(&self, variable: ExecutorVariable) -> (bound: bool)
        requires
            self.wf(),
        ensures
            bound == self.is_input(variable),
    {
        match self.modes.get(&variable) {
            Some(VariableMode::Input) => true,
            _ => false,
        }
    }

    /// Whether every variable with a mode is taken from the input row.
    pub fn all_inputs(&self) -> (all: bool)
        requires
            self.wf(),
        ensures
            all == self.spec_all_inputs(),
    {
        let variables = self.modes.keys();
        let mut index: usize = 0;
        while index < variables.len()
            invariant
                index <= variables@.len(),
                self.wf(),
                variables@.to_set() == self.modes@.dom(),
                forall|i: int|
                    0 <= i < index ==> self.modes@[#[trigger] variables@[i]]
                        == VariableMode::Input,
            decreases variables@.len() - index,
        {
            let variable = variables[index];
            assert(variables@.to_set().contains(variable));
            match self.modes.get(&variable) {
                Some(VariableMode::Input) => {},
                _ => {
                    return false;
                },
            }
            index += 1;
        }
        proof {
            assert forall|variable: ExecutorVariable| #[trigger]
                self.modes@.contains_key(variable) implies self.modes@[variable]
                == VariableMode::Input by {
                assert(variables@.to_set().contains(variable));
                let at = variables@.index_of(variable);
                assert(self.modes@[variables@[at]] == VariableMode::Input);
            }
        }
        true
    }
}

impl Clone for VariableModes {
    /// A copy with the same modes.
    fn clone(&self) -> (copy: Self)
        ensures
            copy.wf() == self.wf(),
            copy.modes@ == self.modes@,
    {
        VariableModes { modes: self.modes.clone() }
    }
}

/// How an instruction over two ends and a third operand is iterated.
#[derive(Debug, Clone, Copy, PartialEq, Eq, Structural)]
pub enum TernaryIterateMode {
    /// Neither end is bound; answers come sorted by the first end.
    Unbound,
    /// Neither end is bound; answers come sorted by the second end.
    UnboundInverted,
    /// The first end is bound.
    BoundFrom,
    /// Both ends are bound.
    BoundFromBoundTo,
}

/// The mode for an instruction from `from` to `to`: with both ends bound,
/// `BoundFromBoundTo`; with `from` bound, `BoundFrom`; with neither bound,
/// `UnboundInverted` if the answers are to come sorted by `to`, and
/// `Unbound` otherwise.
pub open spec fn ternary_mode(from_bound: bool, to_bound: bool, sorted_by_to: bool)
    -> TernaryIterateMode {
    if to_bound {
        TernaryIterateMode::BoundFromBoundTo
    } else if from_bound {
        TernaryIterateMode::BoundFrom
    } else if sorted_by_to {
        TernaryIterateMode::UnboundInverted
    } else {
        TernaryIterateMode::Unbound
    }
}

impl TernaryIterateMode {
    /// The mode for an instruction from `from` to `to`. See
    /// [`ternary_mode`]. Not every variable may be an input, and `to` may be
    /// bound only if `from` is.
    pub fn new(
        from: ExecutorVariable,
        to: ExecutorVariable,
        variable_modes: &VariableModes,
        sort_by: ExecutorVariable,
    ) -> (mode: TernaryIterateMode)
        requires
            variable_modes.wf(),
            !variable_modes.spec_all_inputs(),
            variable_modes.is_input(to) ==> variable_modes.is_input(from),
        ensures
            mode == ternary_mode(
                variable_modes.is_input(from),
                variable_modes.is_input(to),
                sort_by == to,
            ),
    {
        let is_from_bound = variable_modes.is_bound(from);
        let is_to_bound = variable_modes.is_bound(to);
        if is_to_bound {
            TernaryIterateMode::BoundFromBoundTo
        } else if is_from_bound {
            TernaryIterateMode::BoundFrom
        } else if sort_by.same_id(&to) {
            TernaryIterateMode::UnboundInverted
        } else {
            TernaryIterateMode::Unbound
        }
    }

    /// Whether the two modes are the same.
    pub fn same(&self, other: &TernaryIterateMode) -> (same: bool)
        ensures
            same == (*self == *other),
    {
        match (*self, *other) {
            (TernaryIterateMode::Unbound, TernaryIterateMode::Unbound) => true,
            (TernaryIterateMode::UnboundInverted, TernaryIterateMode::UnboundInverted) => true,
            (TernaryIterateMode::BoundFrom, TernaryIterateMode::BoundFrom) => true,
            (TernaryIterateMode::BoundFromBoundTo, TernaryIterateMode::BoundFromBoundTo) => true,
            _ => false,
        }
    }
}

/// The value of a variable in a row.
#[derive(Debug, Clone, Copy, PartialEq, Eq, Structural)]
pub enum VariableValue {
    Empty,
    Type(Type),
    Thing(Thing),
}

/// A row of values, one for each position.
pub struct MaybeOwnedRow {
    pub row: Vec<VariableValue>,
}

impl MaybeOwnedRow {
    /// The width of the row.
    pub fn len(&self) -> (len: usize)
        ensures
            len == self.row@.len(),
    {
        self.row.len()
    }

    /// The value at `position`, which must lie in the row.
    pub fn get(&self, position: VariablePosition) -> (value: &VariableValue)
        requires
            position.position < self.row@.len(),
        ensures
            *value == self.row@[position.position as int],
    {
        &self.row[position.as_usize()]
    }
}

/// The values of an answer of an instruction, in the order in which the
/// instruction sorts them.
#[derive(Debug, Clone, Copy, PartialEq, Eq, Structural)]
pub enum Tuple {
    Triple(VariableValue, VariableValue, VariableValue),
}

/// A tuple, or the failure of the read that should have given it.
pub type TupleResult = Result<Tuple, ConceptReadError>;

/// Which variable each value of a tuple belongs to.
#[derive(Debug, Clone, Copy, PartialEq, Eq, Structural)]
pub enum TuplePositions {
    Triple(Option<ExecutorVariable>, Option<ExecutorVariable>, Option<ExecutorVariable>),
}

/// The player of a link as a thing.
pub open spec fn player_thing(player: Object) -> Thing {
    match player {
        Object::Entity(entity) => Thing::Entity(entity),
        Object::Relation(relation) => Thing::Relation(relation),
    }
}

/// The relation of a link as a value.
pub open spec fn relation_value(link: Link) -> VariableValue {
    VariableValue::Thing(Thing::Relation(link.0))
}

/// The player of a link as a value.
pub open spec fn player_value(link: Link) -> VariableValue {
    VariableValue::Thing(player_thing(link.1.player))
}

/// The role type of a link as a value.
pub open spec fn role_value(link: Link) -> VariableValue {
    VariableValue::Type(Type::RoleType(link.1.role_type))
}

/// A link as a tuple of relation, player and role; a failure stays the
/// failure.
pub open spec fn tuple_relation_player_role(item: LinkResult) -> TupleResult {
    match item {
        Ok(link) => Ok(Tuple::Triple(relation_value(link), player_value(link), role_value(link))),
        Err(error) => Err(error),
    }
}

/// A link as a tuple of player, relation and role; a failure stays the
/// failure.
pub open spec fn tuple_player_relation_role(item: LinkResult) -> TupleResult {
    match item {
        Ok(link) => Ok(Tuple::Triple(player_value(link), relation_value(link), role_value(link))),
        Err(error) => Err(error),
    }
}

/// A link as a tuple of role, relation and player; a failure stays the
/// failure.
pub open spec fn tuple_role_relation_player(item: LinkResult) -> TupleResult {
    match item {
        Ok(link) => Ok(Tuple::Triple(role_value(link), relation_value(link), player_value(link))),
        Err(error) => Err(error),
    }
}

/// The relation of a link as a value.
pub fn extract_relation(link: &Link) -> (value: VariableValue)
    ensures
        value == relation_value(*link),
{
    VariableValue::Thing(Thing::Relation(link.0))
}

/// The player of a link as a value.
pub fn extract_player(link: &Link) -> (value: VariableValue)
    ensures
        value == player_value(*link),
{
    match link.1.player {
        Object::Entity(entity) => VariableValue::Thing(Thing::Entity(entity)),
        Object::Relation(relation) => VariableValue::Thing(Thing::Relation(relation)),
    }
}

/// The role type of a link as a value.
pub fn extract_role(link: &Link) -> (value: VariableValue)
    ensures
        value == role_value(*link),
{
    VariableValue::Type(Type::RoleType(link.1.role_type))
}

/// A link as a tuple of relation, player and role.
pub fn links_to_tuple_relation_player_role(item: LinkResult) -> (tuple: TupleResult)
    ensures
        tuple == tuple_relation_player_role(item),
{
    match item {
        Ok(link) => Ok(
            Tuple::Triple(extract_relation(&link), extract_player(&link), extract_role(&link)),
        ),
        Err(error) => Err(error),
    }
}

/// A link as a tuple of player, relation and role.
pub fn links_to_tuple_player_relation_role(item: LinkResult) -> (tuple: TupleResult)
    ensures
        tuple == tuple_player_relation_role(item),
{
    match item {
        Ok(link) => Ok(
            Tuple::Triple(extract_player(&link), extract_relation(&link), extract_role(&link)),
        ),
        Err(error) => Err(error),
    }
}

/// A link as a tuple of role, relation and player.
pub fn links_to_tuple_role_relation_player(item: LinkResult) -> (tuple: TupleResult)
    ensures
        tuple == tuple_role_relation_player(item),
{
    match item {
        Ok(link) => Ok(
            Tuple::Triple(extract_role(&link), extract_relation(&link), extract_player(&link)),
        ),
        Err(error) => Err(error),
    }
}

/// The answers of an instruction as tuples, with the variable of each value
/// and the modes of the variables.
pub struct SortedTupleIterator {
    pub tuples: Vec<TupleResult>,
    pub positions: TuplePositions,
    pub variable_modes: VariableModes,
}

impl SortedTupleIterator {
    /// The iterator over `tuples`.
    pub fn new(tuples: Vec<TupleResult>, positions: TuplePositions, variable_modes: &VariableModes) -> (iterator:
        SortedTupleIterator)
        ensures
            iterator.tuples == tuples,
            iterator.positions == positions,
            iterator.variable_modes.modes@ == variable_modes.modes@,
    {
        SortedTupleIterator { tuples, positions, variable_modes: variable_modes.clone() }
    }
}

/// The answers of an instruction, by the way in which they were found.
pub enum TupleIterator {
    LinksUnbounded(SortedTupleIterator),
    LinksUnboundedInvertedSingle(SortedTupleIterator),
    LinksUnboundedInvertedMerged(SortedTupleIterator),
    LinksBoundedRelation(SortedTupleIterator),
    LinksBoundedRelationPlayer(SortedTupleIterator),
}

impl TupleIterator {
    /// The tuples of the answers.
    pub open spec fn tuples(&self) -> Seq<TupleResult> {
        match self {
            TupleIterator::LinksUnbounded(iterator) => iterator.tuples@,
            TupleIterator::LinksUnboundedInvertedSingle(iterator) => iterator.tuples@,
            TupleIterator::LinksUnboundedInvertedMerged(iterator) => iterator.tuples@,
            TupleIterator::LinksBoundedRelation(iterator) => iterator.tuples@,
            TupleIterator::LinksBoundedRelationPlayer(iterator) => iterator.tuples@,
        }
    }

    /// The variable of each value of the tuples.
    pub open spec fn positions(&self) -> TuplePositions {
        match self {
            TupleIterator::LinksUnbounded(iterator) => iterator.positions,
            TupleIterator::LinksUnboundedInvertedSingle(iterator) => iterator.positions,
            TupleIterator::LinksUnboundedInvertedMerged(iterator) => iterator.positions,
            TupleIterator::LinksBoundedRelation(iterator) => iterator.positions,
            TupleIterator::LinksBoundedRelationPlayer(iterator) => iterator.positions,
        }
    }

    /// The tuples of the answers.
    pub fn into_tuples(self) -> (tuples: Vec<TupleResult>)
        ensures
            tuples@ == self.tuples(),
    {
        match self {
            TupleIterator::LinksUnbounded(iterator) => iterator.tuples,
            TupleIterator::LinksUnboundedInvertedSingle(iterator) => iterator.tuples,
            TupleIterator::LinksUnboundedInvertedMerged(iterator) => iterator.tuples,
            TupleIterator::LinksBoundedRelation(iterator) => iterator.tuples,
            TupleIterator::LinksBoundedRelationPlayer(iterator) => iterator.tuples,
        }
    }
}

} // verus!
