//! The executor of `links`: the constraint that connects a relation, a
//! player and the type of the role that the player plays.

use crate::concept::{
    lemma_type_key, type_key, type_le, type_lt, ObjectType, RelationType, RoleType, Type,
};
use crate::id_map::IdMap;
use crate::itertools_specs::{
    all_read, collected, kmerge_by_player_then_relation, kmerge_links, minmax_type_keys,
    sorted_by_player_then_relation, stream_views, try_collect_relations, MinMaxKeys,
};
use crate::pattern::Links;
use crate::thing::{
    link_lt, links_ascending, object_lt, object_type_of, of_relation_and_player,
    of_relation_with_player_type_in, read_of, relation_lt, type_of_object_type,
    with_relation_type_in, Bounds, ConceptReadError, Link, LinkResult, Object, Relation,
    RolePlayer, Thing, ThingManager,
};
use crate::tuple::{
    extract_player, extract_relation, extract_role, links_to_tuple_player_relation_role,
    links_to_tuple_relation_player_role, links_to_tuple_role_relation_player, player_value,
    relation_value, role_value, ternary_mode, tuple_player_relation_role,
    tuple_relation_player_role, tuple_role_relation_player, ExecutorVariable, MaybeOwnedRow,
    SortedTupleIterator, TernaryIterateMode, TupleIterator, TuplePositions, TupleResult,
    VariableModes, VariableValue,
};
use vstd::prelude::*;

verus! {

/// A test that an answer has to pass beside the constraint itself.
#[derive(Debug, Clone)]
pub enum CheckInstruction {
    /// The two variables hold the same value.
    Is { lhs: ExecutorVariable, rhs: ExecutorVariable },
    /// The variable holds one of the given types.
    TypeList { type_var: ExecutorVariable, types: Vec<Type> },
    /// The database holds the link of the three variables.
    Links { relation: ExecutorVariable, player: ExecutorVariable, role: ExecutorVariable },
}

/// Which part of a link a variable of the instruction stands for.
#[derive(Debug, Clone, Copy, PartialEq, Eq, Structural)]
pub enum LinksExtractor {
    Relation,
    Player,
    Role,
}

/// The part of a link that an extractor reads.
pub open spec fn extracted(extractor: LinksExtractor, link: Link) -> VariableValue {
    match extractor {
        LinksExtractor::Relation => relation_value(link),
        LinksExtractor::Player => player_value(link),
        LinksExtractor::Role => role_value(link),
    }
}

/// The value of a variable while a link is checked: the part of the link
/// that the variable stands for; else the value at its position of the row;
/// else nothing.
pub open spec fn value_of(
    extractors: Map<ExecutorVariable, LinksExtractor>,
    row: Seq<VariableValue>,
    link: Link,
    variable: ExecutorVariable,
) -> VariableValue {
    if extractors.contains_key(variable) {
        extracted(extractors[variable], link)
    } else {
        match variable {
            ExecutorVariable::RowPosition(position) => if position.position < row.len() {
                row[position.position as int]
            } else {
                VariableValue::Empty
            },
            ExecutorVariable::Internal(_) => VariableValue::Empty,
        }
    }
}

/// Whether the database holds a link of `relation` with `player` in the
/// role `role_type`; a failure where reading fails.
pub open spec fn role_player_held(
    thing_manager: ThingManager,
    relation: Relation,
    player: Object,
    role_type: RoleType,
) -> Result<bool, ConceptReadError> {
    match thing_manager.read_fault {
        Some(error) => Err(error),
        None => Ok(
            exists|i: int|
                0 <= i < thing_manager.links@.len() && (#[trigger] thing_manager.links@[i]).0
                    == relation && thing_manager.links@[i].1 == (RolePlayer { player, role_type }),
        ),
    }
}

/// What one check says of a link.
pub open spec fn check_outcome(
    check: CheckInstruction,
    extractors: Map<ExecutorVariable, LinksExtractor>,
    row: Seq<VariableValue>,
    thing_manager: ThingManager,
    link: Link,
) -> Result<bool, ConceptReadError> {
    match check {
        CheckInstruction::Is { lhs, rhs } => Ok(
            value_of(extractors, row, link, lhs) == value_of(extractors, row, link, rhs),
        ),
        CheckInstruction::TypeList { type_var, types } => Ok(
            value_of(extractors, row, link, type_var) matches VariableValue::Type(type_)
                && types@.contains(type_),
        ),
        CheckInstruction::Links { relation, player, role } => match (
            value_of(extractors, row, link, relation),
            value_of(extractors, row, link, player),
            value_of(extractors, row, link, role),
        ) {
            (
                VariableValue::Thing(Thing::Relation(relation)),
                VariableValue::Thing(Thing::Entity(entity)),
                VariableValue::Type(Type::RoleType(role_type)),
            ) => role_player_held(thing_manager, relation, Object::Entity(entity), role_type),
            (
                VariableValue::Thing(Thing::Relation(relation)),
                VariableValue::Thing(Thing::Relation(player)),
                VariableValue::Type(Type::RoleType(role_type)),
            ) => role_player_held(thing_manager, relation, Object::Relation(player), role_type),
            _ => Ok(false),
        },
    }
}

/// What the checks say of a link, taken in order: the first failure of a
/// read, or that the first check that does not hold does not hold, or that
/// all hold.
pub open spec fn checks_outcome(
    checks: Seq<CheckInstruction>,
    extractors: Map<ExecutorVariable, LinksExtractor>,
    row: Seq<VariableValue>,
    thing_manager: ThingManager,
    link: Link,
) -> Result<bool, ConceptReadError>
    decreases checks.len(),
{
    if checks.len() == 0 {
        Ok(true)
    } else {
        match checks_outcome(checks.drop_last(), extractors, row, thing_manager, link) {
            Ok(true) => check_outcome(checks.last(), extractors, row, thing_manager, link),
            decided => decided,
        }
    }
}

/// What the checks say of an item of a stream of links: a failed read
/// passes, a link is checked.
pub open spec fn item_checked(
    checks: Seq<CheckInstruction>,
    extractors: Map<ExecutorVariable, LinksExtractor>,
    row: Seq<VariableValue>,
    thing_manager: ThingManager,
    item: LinkResult,
) -> Result<bool, ConceptReadError> {
    match item {
        Ok(link) => checks_outcome(checks, extractors, row, thing_manager, link),
        Err(_) => Ok(true),
    }
}

/// What is decided of a prefix of the checks, other than that all hold, is
/// decided of all of them.
pub proof fn lemma_checks_decided(
    checks: Seq<CheckInstruction>,
    upto: int,
    extractors: Map<ExecutorVariable, LinksExtractor>,
    row: Seq<VariableValue>,
    thing_manager: ThingManager,
    link: Link,
)
    requires
        0 <= upto <= checks.len(),
        checks_outcome(checks.take(upto), extractors, row, thing_manager, link) != Ok::<
            bool,
            ConceptReadError,
        >(true),
    ensures
        checks_outcome(checks, extractors, row, thing_manager, link) == checks_outcome(
            checks.take(upto),
            extractors,
            row,
            thing_manager,
            link,
        ),
    decreases checks.len() - upto,
{
    if upto < checks.len() {
        let next = checks.take(upto + 1);
        assert(next.drop_last() =~= checks.take(upto));
        lemma_checks_decided(checks, upto + 1, extractors, row, thing_manager, link);
    } else {
        assert(checks.take(upto) =~= checks);
    }
}

/// The checks of an instruction, and which part of a link each of its
/// variables stands for.
pub struct Checker {
    pub checks: Vec<CheckInstruction>,
    pub extractors: IdMap<ExecutorVariable, LinksExtractor>,
}

/// The state that an execution works on.
pub struct ExecutionContext {
    pub thing_manager: ThingManager,
}

impl ExecutionContext {
    /// The reads of the database.
    pub fn thing_manager(&self) -> (thing_manager: &ThingManager)
        ensures
            *thing_manager == self.thing_manager,
    {
        &self.thing_manager
    }
}

/// Whether the slice holds the type.
pub fn contains_type(types: &Vec<Type>, type_: Type) -> (found: bool)
    ensures
        found == types@.contains(type_),
{
    let mut index: usize = 0;
    while index < types.len()
        invariant
            index <= types@.len(),
            forall|j: int| 0 <= j < index ==> types@[j] != type_,
        decreases types@.len() - index,
    {
        if types[index] == type_ {
            return true;
        }
        index += 1;
    }
    false
}

impl Checker {
    /// Well-formedness of the map of extractors.
    pub open spec fn wf(&self) -> bool {
        self.extractors.wf()
    }

    /// The checker of the given checks.
    pub fn new(checks: Vec<CheckInstruction>, extractors: IdMap<ExecutorVariable, LinksExtractor>) -> (checker:
        Checker)
        ensures
            checker.checks == checks,
            checker.extractors == extractors,
    {
        Checker { checks, extractors }
    }

    /// The value of `variable` while `link` is checked against `row`.
    pub fn value(&self, row: &MaybeOwnedRow, link: &Link, variable: ExecutorVariable) -> (value:
        VariableValue)
        requires
            self.wf(),
        ensures
            value == value_of(self.extractors@, row.row@, *link, variable),
    {
        match self.extractors.get(&variable) {
            Some(LinksExtractor::Relation) => extract_relation(link),
            Some(LinksExtractor::Player) => extract_player(link),
            Some(LinksExtractor::Role) => extract_role(link),
            None => match variable {
                ExecutorVariable::RowPosition(position) => {
                    if position.as_usize() < row.len() {
                        *row.get(position)
                    } else {
                        VariableValue::Empty
                    }
                },
                ExecutorVariable::Internal(_) => VariableValue::Empty,
            },
        }
    }

    /// What one check says of `link`.
    pub fn check_one(
        &self,
        check: &CheckInstruction,
        context: &ExecutionContext,
        row: &MaybeOwnedRow,
        link: &Link,
    ) -> (result: Result<bool, ConceptReadError>)
        requires
            self.wf(),
        ensures
            result == check_outcome(
                *check,
                self.extractors@,
                row.row@,
                context.thing_manager,
                *link,
            ),
    {
        match check {
            CheckInstruction::Is { lhs, rhs } => {
                let left = self.value(row, link, *lhs);
                let right = self.value(row, link, *rhs);
                Ok(left == right)
            },
            CheckInstruction::TypeList { type_var, types } => {
                match self.value(row, link, *type_var) {
                    VariableValue::Type(type_) => Ok(contains_type(types, type_)),
                    _ => Ok(false),
                }
            },
            CheckInstruction::Links { relation, player, role } => {
                let relation = self.value(row, link, *relation);
                let player = self.value(row, link, *player);
                let role = self.value(row, link, *role);
                match (relation, player, role) {
                    (
                        VariableValue::Thing(Thing::Relation(relation)),
                        VariableValue::Thing(Thing::Entity(entity)),
                        VariableValue::Type(Type::RoleType(role_type)),
                    ) => context.thing_manager().has_role_player(
                        relation,
                        Object::Entity(entity),
                        role_type,
                    ),
                    (
                        VariableValue::Thing(Thing::Relation(relation)),
                        VariableValue::Thing(Thing::Relation(player)),
                        VariableValue::Type(Type::RoleType(role_type)),
                    ) => context.thing_manager().has_role_player(
                        relation,
                        Object::Relation(player),
                        role_type,
                    ),
                    _ => Ok(false),
                }
            },
        }
    }

    /// What the checks say of `item` for the row `row`: a failed read
    /// passes; a link passes if every check holds; the first check that
    /// does not hold, or that cannot be read, decides.
    pub fn check(&self, context: &ExecutionContext, row: &MaybeOwnedRow, item: &LinkResult) -> (result:
        Result<bool, ConceptReadError>)
        requires
            self.wf(),
        ensures
            result == item_checked(
                self.checks@,
                self.extractors@,
                row.row@,
                context.thing_manager,
                *item,
            ),
    {
        let link = match item {
            Ok(link) => link,
            Err(_) => {
                return Ok(true);
            },
        };
        let mut index: usize = 0;
        while index < self.checks.len()
            invariant
                index <= self.checks@.len(),
                self.wf(),
                *item == Ok::<Link, ConceptReadError>(*link),
                checks_outcome(
                    self.checks@.take(index as int),
                    self.extractors@,
                    row.row@,
                    context.thing_manager,
                    *link,
                ) == Ok::<bool, ConceptReadError>(true),
            decreases self.checks@.len() - index,
        {
            proof {
                let upto = self.checks@.take(index + 1);
                assert(upto.drop_last() =~= self.checks@.take(index as int));
                assert(upto.last() == self.checks@[index as int]);
            }
            match self.check_one(&self.checks[index], context, row, link) {
                Ok(true) => {},
                decided => {
                    proof {
                        lemma_checks_decided(
                            self.checks@,
                            index + 1,
                            self.extractors@,
                            row.row@,
                            context.thing_manager,
                            *link,
                        );
                    }
                    return decided;
                },
            }
            index += 1;
        }
        proof {
            assert(self.checks@.take(index as int) =~= self.checks@);
        }
        Ok(true)
    }
}

/// The test of which links the types admit: for each relation type the
/// types of its players, and for each player type the types of the roles it
/// plays.
pub struct LinksFilter {
    pub relation_to_player: IdMap<Type, Vec<Type>>,
    pub player_to_role: IdMap<Type, Vec<Type>>,
}

/// The type of the relation of a link.
pub open spec fn link_relation_type(link: Link) -> Type {
    Type::Relation(link.0.type_)
}

/// The type of the player of a link.
pub open spec fn link_player_type(link: Link) -> Type {
    type_of_object_type(object_type_of(link.1.player))
}

/// The type of the role of a link.
pub open spec fn link_role_type(link: Link) -> Type {
    Type::RoleType(link.1.role_type)
}

/// Whether the types admit a link: its relation type is a candidate, the
/// type of its player is one of the player types of that relation type, and
/// the type of its role is one of the role types of that player type.
pub open spec fn types_admit(
    relation_to_player: Map<Type, Vec<Type>>,
    player_to_role: Map<Type, Vec<Type>>,
    link: Link,
) -> bool {
    &&& relation_to_player.contains_key(link_relation_type(link))
    &&& relation_to_player[link_relation_type(link)]@.contains(link_player_type(link))
    &&& player_to_role.contains_key(link_player_type(link))
    &&& player_to_role[link_player_type(link)]@.contains(link_role_type(link))
}

/// What the filter says of an item of a stream of links: a failed read
/// stays the failure, and a link is admitted or not.
pub open spec fn filter_outcome(
    relation_to_player: Map<Type, Vec<Type>>,
    player_to_role: Map<Type, Vec<Type>>,
    item: LinkResult,
) -> Result<bool, ConceptReadError> {
    match item {
        Ok(link) => Ok(types_admit(relation_to_player, player_to_role, link)),
        Err(error) => Err(error),
    }
}

/// The filter by the types of relation, player and role.
pub fn create_links_filter_relations_players_roles(
    relation_to_player: IdMap<Type, Vec<Type>>,
    player_to_role: IdMap<Type, Vec<Type>>,
) -> (filter: LinksFilter)
    ensures
        filter.relation_to_player == relation_to_player,
        filter.player_to_role == player_to_role,
{
    LinksFilter { relation_to_player, player_to_role }
}

impl LinksFilter {
    /// Well-formedness of the two maps.
    pub open spec fn wf(&self) -> bool {
        self.relation_to_player.wf() && self.player_to_role.wf()
    }

    /// What the filter says of `item`. See [`filter_outcome`].
    pub fn apply(&self, item: &LinkResult) -> (result: Result<bool, ConceptReadError>)
        requires
            self.wf(),
        ensures
            result == filter_outcome(self.relation_to_player@, self.player_to_role@, *item),
    {
        let (relation, role_player) = match item {
            Ok((relation, role_player, _)) => (relation, role_player),
            Err(error) => {
                return Err(*error);
            },
        };
        let player_types = match self.relation_to_player.get(&Type::Relation(relation.type_())) {
            Some(player_types) => player_types,
            None => {
                return Ok(false);
            },
        };
        let player_type = role_player.player().type_().as_type();
        let role_type = Type::RoleType(role_player.role_type());
        if !contains_type(player_types, player_type) {
            return Ok(false);
        }
        match self.player_to_role.get(&player_type) {
            Some(role_types) => Ok(contains_type(role_types, role_type)),
            None => Ok(false),
        }
    }
}

/// Whether `left` comes before `right` when links are ordered by player and
/// then by relation. Where either is a failed read, neither comes first.
pub open spec fn before_by_player_then_relation(left: LinkResult, right: LinkResult) -> bool {
    match (left, right) {
        (Ok(one), Ok(other)) => object_lt(one.1.player, other.1.player) || (one.1.player
            == other.1.player && relation_lt(one.0, other.0)),
        _ => false,
    }
}

/// Whether `left` comes before `right` when links are ordered by player and
/// then by relation.
pub fn compare_by_player_then_relation(left: &LinkResult, right: &LinkResult) -> (before: bool)
    ensures
        before == before_by_player_then_relation(*left, *right),
{
    match (left, right) {
        (Ok((rel_1, rp_1, _)), Ok((rel_2, rp_2, _))) => {
            let player_1 = rp_1.player();
            let player_2 = rp_2.player();
            player_1.is_before(&player_2) || (player_1 == player_2 && rel_1.is_before(rel_2))
        },
        _ => (false),
    }
}

/// The least and the greatest of some types, of which there must be one.
pub fn min_max_types(types: &Vec<Type>) -> (bounds: (Type, Type))
    requires
        types@.len() > 0,
    ensures
        types@.contains(bounds.0),
        types@.contains(bounds.1),
        forall|i: int|
            0 <= i < types@.len() ==> type_le(bounds.0, #[trigger] types@[i]) && type_le(
                types@[i],
                bounds.1,
            ),
{
    proof {
        assert forall|i: int| 0 <= i < types@.len() implies type_le(
            #[trigger] types@[i],
            types@[i],
        ) by {}
    }
    match minmax_type_keys(types) {
        MinMaxKeys::NoElements => (types[0], types[0]),
        MinMaxKeys::OneElement(_) => (types[0], types[0]),
        MinMaxKeys::MinMax(min, max) => {
            let ghost at_min = choose|i: int|
                0 <= i < types@.len() && type_key(#[trigger] types@[i]) == min;
            let ghost at_max = choose|i: int|
                0 <= i < types@.len() && type_key(#[trigger] types@[i]) == max;
            let least = Type::from_order_key(min);
            let greatest = Type::from_order_key(max);
            match (least, greatest) {
                (Some(least), Some(greatest)) => {
                    proof {
                        lemma_type_key(least, types@[at_min]);
                        lemma_type_key(greatest, types@[at_max]);
                        assert forall|i: int| 0 <= i < types@.len() implies type_le(
                            least,
                            #[trigger] types@[i],
                        ) && type_le(types@[i], greatest) by {
                            lemma_type_key(least, types@[i]);
                            lemma_type_key(types@[i], greatest);
                        }
                    }
                    (least, greatest)
                },
                _ => {
                    proof {
                        assert(type_key(types@[at_min]).0 <= 3);
                        assert(type_key(types@[at_max]).0 <= 3);
                    }
                    (types[0], types[0])
                },
            }
        },
    }
}


/// The `links` constraint as the planner hands it to its executor: the
/// three variables, the types that the annotations admit, and the checks.
pub struct LinksInstruction {
    pub links: Links<ExecutorVariable>,
    /// For each candidate relation type the types of its players. The
    /// relation types stand in ascending order.
    pub relation_to_player_types: IdMap<Type, Vec<Type>>,
    /// The types that the player can have.
    pub player_types: Vec<Type>,
    /// For each player type the types of the roles that it plays.
    pub player_to_role_types: IdMap<Type, Vec<Type>>,
    pub checks: Vec<CheckInstruction>,
}

/// Whether the types stand in strictly ascending order.
pub open spec fn ascending(types: Seq<Type>) -> bool {
    forall|i: int, j: int| 0 <= i < j < types.len() ==> type_lt(types[i], types[j])
}

impl LinksInstruction {
    /// Well-formedness: there is a candidate relation type and a player
    /// type; the candidates are relation types in ascending order; the
    /// player types are types of objects.
    pub open spec fn wf(&self) -> bool {
        &&& self.relation_to_player_types.wf()
        &&& self.player_to_role_types.wf()
        &&& self.relation_to_player_types.key_order().len() > 0
        &&& ascending(self.relation_to_player_types.key_order())
        &&& forall|i: int|
            0 <= i < self.relation_to_player_types.key_order().len()
                ==> (#[trigger] self.relation_to_player_types.key_order()[i]) is Relation
        &&& self.player_types@.len() > 0
        &&& forall|i: int|
            0 <= i < self.player_types@.len() ==> (#[trigger] self.player_types@[i]) is Entity
                || self.player_types@[i] is Relation
    }
}

/// Which tuple a link is turned into.
#[derive(Debug, Clone, Copy, PartialEq, Eq, Structural)]
pub enum LinksToTuple {
    RelationPlayerRole,
    PlayerRelationRole,
    RoleRelationPlayer,
}

/// The tuple that an item of a stream of links is turned into.
pub open spec fn projected(shape: LinksToTuple, item: LinkResult) -> TupleResult {
    match shape {
        LinksToTuple::RelationPlayerRole => tuple_relation_player_role(item),
        LinksToTuple::PlayerRelationRole => tuple_player_relation_role(item),
        LinksToTuple::RoleRelationPlayer => tuple_role_relation_player(item),
    }
}

/// Whether an item of a stream of links is kept, given what the filter by
/// types and the checks say of it. An item that the types admit is kept
/// unless a check does not hold; one that they do not admit is dropped; and
/// a failure, of the read or of a check, is kept, so that it is seen.
pub open spec fn keeps(
    admitted: Result<bool, ConceptReadError>,
    checked: Result<bool, ConceptReadError>,
) -> bool {
    match admitted {
        Ok(true) => checked != Ok::<bool, ConceptReadError>(false),
        Ok(false) => false,
        Err(_) => true,
    }
}

/// The order of the variables in the tuples of a mode: relation, player,
/// role where rows come sorted by relation; player, relation, role where
/// they come sorted by player; role, relation, player where both relation
/// and player are bound.
pub open spec fn positions_for(mode: TernaryIterateMode, links: Links<ExecutorVariable>)
    -> TuplePositions {
    match mode {
        TernaryIterateMode::Unbound => TuplePositions::Triple(
            Some(links.relation),
            Some(links.player),
            Some(links.role_type),
        ),
        TernaryIterateMode::UnboundInverted => TuplePositions::Triple(
            Some(links.player),
            Some(links.relation),
            Some(links.role_type),
        ),
        TernaryIterateMode::BoundFrom => TuplePositions::Triple(
            Some(links.player),
            Some(links.relation),
            Some(links.role_type),
        ),
        TernaryIterateMode::BoundFromBoundTo => TuplePositions::Triple(
            Some(links.role_type),
            Some(links.relation),
            Some(links.player),
        ),
    }
}

/// Which part of a link each variable of the constraint stands for. Where
/// one variable is used twice, the later use counts.
pub open spec fn extractors_for(links: Links<ExecutorVariable>) -> Map<
    ExecutorVariable,
    LinksExtractor,
> {
    Map::<ExecutorVariable, LinksExtractor>::empty().insert(
        links.relation,
        LinksExtractor::Relation,
    ).insert(links.player, LinksExtractor::Player).insert(links.role_type, LinksExtractor::Role)
}

/// The relation type that a type is.
pub open spec fn relation_type_of(type_: Type) -> RelationType {
    match type_ {
        Type::Relation(relation_type) => relation_type,
        _ => RelationType { id: 0 },
    }
}

/// The instances of the given relation types, type by type, as far as
/// reading them succeeds: all of them, or the first failure.
pub open spec fn cached_relations(types: Seq<Type>, thing_manager: ThingManager) -> Result<
    Seq<Relation>,
    ConceptReadError,
>
    decreases types.len(),
{
    if types.len() == 0 {
        Ok(Seq::empty())
    } else {
        match cached_relations(types.drop_last(), thing_manager) {
            Err(error) => Err(error),
            Ok(cache) => match collected(
                read_of(
                    thing_manager.read_fault,
                    thing_manager.relations_in(relation_type_of(types.last())),
                ),
            ) {
                Ok(instances) => Ok(cache + instances),
                Err(error) => Err(error),
            },
        }
    }
}

/// The failure to read the instances of a prefix of the types is the
/// failure to read those of all of them.
pub proof fn lemma_cached_relations_error_extends(
    types: Seq<Type>,
    upto: int,
    thing_manager: ThingManager,
)
    requires
        0 <= upto <= types.len(),
        cached_relations(types.take(upto), thing_manager) is Err,
    ensures
        cached_relations(types, thing_manager) == cached_relations(
            types.take(upto),
            thing_manager,
        ),
    decreases types.len() - upto,
{
    if upto < types.len() {
        let next = types.take(upto + 1);
        assert(next.drop_last() =~= types.take(upto));
        lemma_cached_relations_error_extends(types, upto + 1, thing_manager);
    } else {
        assert(types.take(upto) =~= types);
    }
}

/// The executor of one `links` constraint.
pub struct LinksExecutor {
    pub links: Links<ExecutorVariable>,
    pub iterate_mode: TernaryIterateMode,
    pub variable_modes: VariableModes,
    pub tuple_positions: TuplePositions,
    pub relation_type_range: Bounds<RelationType>,
    pub player_type_range: Bounds<ObjectType>,
    pub filter_fn: LinksFilter,
    pub relation_cache: Option<Vec<Relation>>,
    pub checker: Checker,
}

/// The links that an executor reads for an input row, before it filters
/// them.
///
/// With nothing bound and rows sorted by relation, these are the links of
/// all relations whose type lies in the range of the candidate types. With
/// rows sorted by player, they are the links of the cached relations to
/// players whose type lies in the range of the player types: read as they
/// are for a cache of one relation, and merged by player and then by
/// relation otherwise. With the relation bound, they are the links of the
/// relation of the row to players of those types; with relation and player
/// bound, the links of the relation with the player.
pub open spec fn links_read(
    executor: LinksExecutor,
    thing_manager: ThingManager,
    row: Seq<VariableValue>,
) -> Seq<LinkResult> {
    match executor.iterate_mode {
        TernaryIterateMode::Unbound => read_of(
            thing_manager.read_fault,
            thing_manager.links_by_relation_type_range(executor.relation_type_range),
        ),
        TernaryIterateMode::UnboundInverted => {
            let cache = executor.relation_cache.unwrap()@;
            if cache.len() == 1 {
                read_of(
                    thing_manager.read_fault,
                    thing_manager.links_by_relation_and_player_type_range(
                        cache[0],
                        executor.player_type_range,
                    ),
                )
            } else {
                kmerge_by_player_then_relation(
                    cache.map_values(
                        |relation: Relation|
                            read_of(
                                thing_manager.read_fault,
                                thing_manager.links_by_relation_and_player_type_range(
                                    relation,
                                    executor.player_type_range,
                                ),
                            ),
                    ),
                )
            }
        },
        TernaryIterateMode::BoundFrom => read_of(
            thing_manager.read_fault,
            thing_manager.links_by_relation_and_player_type_range(
                bound_relation(executor.links.relation, row),
                executor.player_type_range,
            ),
        ),
        TernaryIterateMode::BoundFromBoundTo => read_of(
            thing_manager.read_fault,
            thing_manager.links_by_relation_and_player(
                bound_relation(executor.links.relation, row),
                bound_object(executor.links.player, row),
            ),
        ),
    }
}

/// The value that the row holds for a variable that stands in it.
pub open spec fn bound_value(variable: ExecutorVariable, row: Seq<VariableValue>) -> VariableValue {
    match variable {
        ExecutorVariable::RowPosition(position) => if position.position < row.len() {
            row[position.position as int]
        } else {
            VariableValue::Empty
        },
        ExecutorVariable::Internal(_) => VariableValue::Empty,
    }
}

/// The relation that the row holds for a variable.
pub open spec fn bound_relation(variable: ExecutorVariable, row: Seq<VariableValue>) -> Relation {
    match bound_value(variable, row) {
        VariableValue::Thing(Thing::Relation(relation)) => relation,
        _ => Relation { type_: RelationType { id: 0 }, id: 0 },
    }
}

/// The object that the row holds for a variable.
pub open spec fn bound_object(variable: ExecutorVariable, row: Seq<VariableValue>) -> Object {
    match bound_value(variable, row) {
        VariableValue::Thing(Thing::Entity(entity)) => Object::Entity(entity),
        VariableValue::Thing(Thing::Relation(relation)) => Object::Relation(relation),
        _ => Object::Relation(Relation { type_: RelationType { id: 0 }, id: 0 }),
    }
}

/// Whether the row holds a relation for the variable.
pub open spec fn holds_relation(variable: ExecutorVariable, row: Seq<VariableValue>) -> bool {
    bound_value(variable, row) matches VariableValue::Thing(Thing::Relation(_))
}

/// Whether the row holds an object for the variable.
pub open spec fn holds_object(variable: ExecutorVariable, row: Seq<VariableValue>) -> bool {
    bound_value(variable, row) matches VariableValue::Thing(thing) && !(thing is Attribute)
}

/// The tuples of a mode: which tuple a link is turned into.
pub open spec fn shape_for(mode: TernaryIterateMode) -> LinksToTuple {
    match mode {
        TernaryIterateMode::Unbound => LinksToTuple::RelationPlayerRole,
        TernaryIterateMode::UnboundInverted => LinksToTuple::PlayerRelationRole,
        TernaryIterateMode::BoundFrom => LinksToTuple::PlayerRelationRole,
        TernaryIterateMode::BoundFromBoundTo => LinksToTuple::RoleRelationPlayer,
    }
}

impl LinksExecutor {
    /// Well-formedness: the relations are cached exactly where rows come
    /// sorted by player with nothing bound, and the maps are well-formed.
    pub open spec fn wf(&self) -> bool {
        &&& self.variable_modes.wf()
        &&& self.filter_fn.wf()
        &&& self.checker.wf()
        &&& (self.iterate_mode == TernaryIterateMode::UnboundInverted)
            == self.relation_cache.is_some()
    }

    /// Whether an item of a stream of links passes the filter by types and
    /// the checks for the row. See [`keeps`].
    pub open spec fn passes(&self, thing_manager: ThingManager, row: Seq<VariableValue>) -> spec_fn(
        LinkResult,
    ) -> bool {
        |item: LinkResult|
            keeps(
                filter_outcome(
                    self.filter_fn.relation_to_player@,
                    self.filter_fn.player_to_role@,
                    item,
                ),
                item_checked(
                    self.checker.checks@,
                    self.checker.extractors@,
                    row,
                    thing_manager,
                    item,
                ),
            )
    }

    /// The tuples that a stream of links gives: the items that pass, each
    /// turned into a tuple, in the order of the stream.
    pub open spec fn tuples_from(
        &self,
        items: Seq<LinkResult>,
        thing_manager: ThingManager,
        row: Seq<VariableValue>,
        shape: LinksToTuple,
    ) -> Seq<TupleResult> {
        items.filter(self.passes(thing_manager, row)).map_values(
            |item: LinkResult| projected(shape, item),
        )
    }

    /// Filters a stream of links for a row and turns what passes into
    /// tuples. See [`LinksExecutor::tuples_from`].
    pub fn tuples_of(
        &self,
        context: &ExecutionContext,
        row: &MaybeOwnedRow,
        items: Vec<LinkResult>,
        shape: LinksToTuple,
    ) -> (tuples: Vec<TupleResult>)
        requires
            self.filter_fn.wf(),
            self.checker.wf(),
        ensures
            tuples@ == self.tuples_from(items@, context.thing_manager, row.row@, shape),
    {
        let ghost passes = self.passes(context.thing_manager, row.row@);
        let ghost project = |item: LinkResult| projected(shape, item);
        let mut tuples: Vec<TupleResult> = Vec::new();
        let mut index: usize = 0;
        while index < items.len()
            invariant
                index <= items@.len(),
                self.filter_fn.wf(),
                self.checker.wf(),
                passes == self.passes(context.thing_manager, row.row@),
                project == |item: LinkResult| projected(shape, item),
                tuples@ == items@.take(index as int).filter(passes).map_values(project),
            decreases items@.len() - index,
        {
            let item = items[index];
            proof {
                let upto = items@.take(index + 1);
                assert(upto.drop_last() =~= items@.take(index as int));
                assert(upto.last() == item);
                reveal(Seq::filter);
                let before = items@.take(index as int).filter(passes);
                if passes(item) {
                    assert(upto.filter(passes) == before.push(item));
                    assert(before.push(item).map_values(project) =~= before.map_values(
                        project,
                    ).push(project(item)));
                } else {
                    assert(upto.filter(passes) == before);
                }
            }
            let keep = match self.filter_fn.apply(&item) {
                Ok(true) => match self.checker.check(context, row, &item) {
                    Ok(true) => true,
                    Err(_) => true,
                    Ok(false) => false,
                },
                Ok(false) => false,
                Err(_) => true,
            };
            if keep {
                let tuple = match shape {
                    LinksToTuple::RelationPlayerRole => links_to_tuple_relation_player_role(item),
                    LinksToTuple::PlayerRelationRole => links_to_tuple_player_relation_role(item),
                    LinksToTuple::RoleRelationPlayer => links_to_tuple_role_relation_player(item),
                };
                tuples.push(tuple);
            }
            index += 1;
        }
        proof {
            assert(items@.take(index as int) =~= items@);
        }
        tuples
    }
}


/// Whether `left` comes before `right` in the order that a mode gives its
/// answers in: by relation where nothing is bound and rows come sorted by
/// relation; by player, then by relation, where they come sorted by player;
/// by player where the relation is bound; by role where relation and
/// player are bound.
pub open spec fn key_before(mode: TernaryIterateMode, left: Link, right: Link) -> bool {
    match mode {
        TernaryIterateMode::Unbound => relation_lt(left.0, right.0),
        TernaryIterateMode::UnboundInverted => before_by_player_then_relation(Ok(left), Ok(right)),
        TernaryIterateMode::BoundFrom => object_lt(left.1.player, right.1.player),
        TernaryIterateMode::BoundFromBoundTo => left.1.role_type.id < right.1.role_type.id,
    }
}

/// Whether two items of a stream, the first of which is yielded earlier,
/// are in the order of the mode: the later one does not come before the
/// earlier one. A failed read is in order with everything.
pub open spec fn in_order(mode: TernaryIterateMode, earlier: LinkResult, later: LinkResult) -> bool {
    match (earlier, later) {
        (Ok(one), Ok(other)) => !key_before(mode, other, one),
        _ => true,
    }
}

/// Whether the items of a stream come in the order of the mode.
pub open spec fn answers_in_order(mode: TernaryIterateMode, items: Seq<LinkResult>) -> bool {
    forall|i: int, j: int| 0 <= i < j < items.len() ==> in_order(mode, items[i], items[j])
}

/// Filtering keeps the order: what holds of every two items, the earlier
/// and the later, holds of every two items that are kept; and what is kept
/// are items that pass the test.
pub proof fn lemma_filter_keeps_order<T>(
    items: Seq<T>,
    test: spec_fn(T) -> bool,
    related: spec_fn(T, T) -> bool,
)
    requires
        forall|i: int, j: int| 0 <= i < j < items.len() ==> related(items[i], items[j]),
    ensures
        forall|i: int, j: int|
            0 <= i < j < items.filter(test).len() ==> related(
                items.filter(test)[i],
                items.filter(test)[j],
            ),
        forall|i: int|
            0 <= i < items.filter(test).len() ==> items.contains(
                #[trigger] items.filter(test)[i],
            ) && test(items.filter(test)[i]),
    decreases items.len(),
{
    reveal(Seq::filter);
    if items.len() > 0 {
        let front = items.drop_last();
        let kept_front = front.filter(test);
        let kept = items.filter(test);
        assert forall|i: int, j: int| 0 <= i < j < front.len() implies related(
            front[i],
            front[j],
        ) by {
            assert(front[i] == items[i] && front[j] == items[j]);
        }
        lemma_filter_keeps_order(front, test, related);
        assert forall|i: int| 0 <= i < kept.len() implies items.contains(#[trigger] kept[i])
            && test(kept[i]) by {
            if i < kept_front.len() {
                assert(front.contains(kept_front[i]));
                let at = choose|at: int| 0 <= at < front.len() && front[at] == kept_front[i];
                assert(items[at] == kept[i]);
            } else {
                assert(items[items.len() - 1] == kept[i]);
            }
        }
        assert forall|i: int, j: int| 0 <= i < j < kept.len() implies related(
            kept[i],
            kept[j],
        ) by {
            if j >= kept_front.len() {
                assert(front.contains(kept_front[i]));
                let at = choose|at: int| 0 <= at < front.len() && front[at] == kept_front[i];
                assert(related(items[at], items[items.len() - 1]));
            }
        }
    }
}

/// Links that were read, in ascending order, come in the order of a mode:
/// in that by relation; and, where they are links of one relation, in the
/// order by player and in that by player and then by relation; and, where
/// they are links of one relation with one player, in the order by role.
pub proof fn lemma_ascending_in_order(mode: TernaryIterateMode, items: Seq<LinkResult>)
    requires
        forall|i: int| 0 <= i < items.len() ==> (#[trigger] items[i]) is Ok,
        forall|i: int, j: int|
            0 <= i < j < items.len() ==> link_lt(items[i].unwrap(), items[j].unwrap()),
        mode != TernaryIterateMode::Unbound ==> forall|i: int, j: int|
            0 <= i < j < items.len() ==> items[i].unwrap().0 == items[j].unwrap().0,
        mode == TernaryIterateMode::BoundFromBoundTo ==> forall|i: int, j: int|
            0 <= i < j < items.len() ==> items[i].unwrap().1.player == items[j].unwrap().1.player,
    ensures
        answers_in_order(mode, items),
        mode == TernaryIterateMode::UnboundInverted ==> sorted_by_player_then_relation(items),
{
    assert forall|i: int, j: int| 0 <= i < j < items.len() implies in_order(
        mode,
        items[i],
        items[j],
    ) by {
        assert(items[i] is Ok && items[j] is Ok);
        assert(link_lt(items[i].unwrap(), items[j].unwrap()));
    }
    if mode == TernaryIterateMode::UnboundInverted {
        assert forall|i: int, j: int|
            0 <= i < j < items.len() implies !before_by_player_then_relation(
            items[j],
            items[i],
        ) by {
            assert(in_order(mode, items[i], items[j]));
        }
    }
}

/// Filtering by a test that every item passes changes nothing.
pub proof fn lemma_filter_everything<T>(items: Seq<T>, test: spec_fn(T) -> bool)
    requires
        forall|i: int| 0 <= i < items.len() ==> test(#[trigger] items[i]),
    ensures
        items.filter(test) == items,
    decreases items.len(),
{
    reveal(Seq::filter);
    if items.len() > 0 {
        let front = items.drop_last();
        assert forall|i: int| 0 <= i < front.len() implies test(#[trigger] front[i]) by {
            assert(front[i] == items[i]);
        }
        lemma_filter_everything(front, test);
        assert(items[items.len() - 1] == items.last());
        assert(front.push(items.last()) =~= items);
    }
}

/// What is read of ascending links, and then filtered, is links that were
/// read, each of which passes the test of the read, in ascending order.
pub proof fn lemma_read_keeps_order(
    links: Seq<Link>,
    read_test: spec_fn(Link) -> bool,
    passes: spec_fn(LinkResult) -> bool,
)
    requires
        links_ascending(links),
    ensures
        forall|i: int|
            0 <= i < read_of(None, links.filter(read_test)).filter(passes).len() ==> (
            #[trigger] read_of(None, links.filter(read_test)).filter(passes)[i]) is Ok
                && read_test(read_of(None, links.filter(read_test)).filter(passes)[i].unwrap()),
        forall|i: int, j: int|
            0 <= i < j < read_of(None, links.filter(read_test)).filter(passes).len() ==> link_lt(
                read_of(None, links.filter(read_test)).filter(passes)[i].unwrap(),
                read_of(None, links.filter(read_test)).filter(passes)[j].unwrap(),
            ),
{
    let found = links.filter(read_test);
    let read = read_of(None, found);
    let kept = read.filter(passes);
    lemma_filter_keeps_order(links, read_test, |one: Link, other: Link| link_lt(one, other));
    let related = |one: LinkResult, other: LinkResult|
        one is Ok && other is Ok && link_lt(one.unwrap(), other.unwrap());
    assert forall|i: int, j: int| 0 <= i < j < read.len() implies related(read[i], read[j]) by {
        assert(read[i] == Ok::<Link, ConceptReadError>(found[i]));
        assert(read[j] == Ok::<Link, ConceptReadError>(found[j]));
    }
    lemma_filter_keeps_order(read, passes, related);
    assert forall|i: int| 0 <= i < kept.len() implies (#[trigger] kept[i]) is Ok && read_test(
        kept[i].unwrap(),
    ) by {
        assert(read.contains(kept[i]));
        let at = choose|at: int| 0 <= at < read.len() && read[at] == kept[i];
        assert(read[at] == Ok::<Link, ConceptReadError>(found[at]));
    }
    assert forall|i: int, j: int| 0 <= i < j < kept.len() implies link_lt(
        kept[i].unwrap(),
        kept[j].unwrap(),
    ) by {
        assert(related(kept[i], kept[j]));
    }
}

/// In an ascending sequence of types the first is the least and the last is
/// the greatest.
pub proof fn lemma_ascending_bounds(types: Seq<Type>)
    requires
        types.len() > 0,
        ascending(types),
    ensures
        forall|i: int|
            0 <= i < types.len() ==> type_le(types[0], #[trigger] types[i]) && type_le(
                types[i],
                types.last(),
            ),
{
}

/// What creating an executor comes to, but for the cache of relations: the
/// mode of iteration by what is bound and sorted by, the order of the
/// variables in its tuples, the interval of the candidate relation types,
/// the interval of the player types, the filter by types and the checker.
pub open spec fn executor_prepared(
    executor: LinksExecutor,
    links: LinksInstruction,
    variable_modes: VariableModes,
    sort_by: ExecutorVariable,
) -> bool {
    let candidates = links.relation_to_player_types.key_order();
    &&& executor.links == links.links
    &&& executor.iterate_mode == ternary_mode(
        variable_modes.is_input(links.links.relation),
        variable_modes.is_input(links.links.player),
        sort_by == links.links.player,
    )
    &&& executor.variable_modes.modes@ == variable_modes.modes@
    &&& executor.tuple_positions == positions_for(executor.iterate_mode, links.links)
    &&& Type::Relation(executor.relation_type_range.min) == candidates[0]
    &&& Type::Relation(executor.relation_type_range.max) == candidates.last()
    &&& links.player_types@.contains(type_of_object_type(executor.player_type_range.min))
    &&& links.player_types@.contains(type_of_object_type(executor.player_type_range.max))
    &&& forall|i: int|
        0 <= i < links.player_types@.len() ==> type_le(
            type_of_object_type(executor.player_type_range.min),
            #[trigger] links.player_types@[i],
        ) && type_le(
            links.player_types@[i],
            type_of_object_type(executor.player_type_range.max),
        )
    &&& executor.filter_fn.relation_to_player == links.relation_to_player_types
    &&& executor.filter_fn.player_to_role == links.player_to_role_types
    &&& executor.checker.checks == links.checks
    &&& executor.checker.extractors@ == extractors_for(links.links)
}

/// The interval of the candidate relation types of an executor spans
/// exactly its candidates: its bounds are the least and the greatest key of
/// the map from relation types to player types.
pub proof fn lemma_relation_type_range(
    executor: LinksExecutor,
    links: LinksInstruction,
    variable_modes: VariableModes,
    sort_by: ExecutorVariable,
)
    requires
        links.wf(),
        executor_prepared(executor, links, variable_modes, sort_by),
    ensures
        links.relation_to_player_types@.contains_key(
            Type::Relation(executor.relation_type_range.min),
        ),
        links.relation_to_player_types@.contains_key(
            Type::Relation(executor.relation_type_range.max),
        ),
        forall|key: Type| #[trigger]
            links.relation_to_player_types@.contains_key(key) ==> type_le(
                Type::Relation(executor.relation_type_range.min),
                key,
            ) && type_le(key, Type::Relation(executor.relation_type_range.max)),
{
    let candidates = links.relation_to_player_types.key_order();
    links.relation_to_player_types.lemma_key_order();
    lemma_ascending_bounds(candidates);
    assert(candidates.to_set().contains(candidates[0]));
    assert(candidates.to_set().contains(candidates.last()));
    assert forall|key: Type| #[trigger]
        links.relation_to_player_types@.contains_key(key) implies type_le(
        Type::Relation(executor.relation_type_range.min),
        key,
    ) && type_le(key, Type::Relation(executor.relation_type_range.max)) by {
        assert(candidates.to_set().contains(key));
        let at = candidates.index_of(key);
        assert(type_le(candidates[0], candidates[at]));
    }
}

impl LinksExecutor {
    /// Creates the executor of a `links` constraint.
    ///
    /// The mode of iteration follows from which of relation and player are
    /// inputs and from the variable to sort by. Where rows come sorted by
    /// player with nothing bound, the instances of every candidate relation
    /// type are read and kept; this is the only read, and the only way to
    /// fail. Not every variable may be an input, and the player may be
    /// bound only if the relation is.
    #[verifier::loop_isolation(false)]
    pub fn new(
        links: LinksInstruction,
        variable_modes: VariableModes,
        sort_by: ExecutorVariable,
        thing_manager: &ThingManager,
    ) -> (result: Result<LinksExecutor, ConceptReadError>)
        requires
            links.wf(),
            variable_modes.wf(),
            !variable_modes.spec_all_inputs(),
            variable_modes.is_input(links.links.player) ==> variable_modes.is_input(
                links.links.relation,
            ),
        ensures
            match result {
                Ok(executor) => {
                    &&& executor.wf()
                    &&& executor_prepared(executor, links, variable_modes, sort_by)
                    &&& match executor.relation_cache {
                        Some(cache) => cached_relations(
                            links.relation_to_player_types.key_order(),
                            *thing_manager,
                        ) == Ok::<_, ConceptReadError>(cache@),
                        None => executor.iterate_mode != TernaryIterateMode::UnboundInverted,
                    }
                },
                Err(error) => {
                    &&& ternary_mode(
                        variable_modes.is_input(links.links.relation),
                        variable_modes.is_input(links.links.player),
                        sort_by == links.links.player,
                    ) == TernaryIterateMode::UnboundInverted
                    &&& cached_relations(
                        links.relation_to_player_types.key_order(),
                        *thing_manager,
                    ) == Err::<Seq<Relation>, _>(error)
                },
            },
    {
        let LinksInstruction {
            links,
            relation_to_player_types,
            player_types,
            player_to_role_types,
            checks,
        } = links;
        let iterate_mode = TernaryIterateMode::new(
            links.relation(),
            links.player(),
            &variable_modes,
            sort_by,
        );
        let relation = links.relation();
        let player = links.player();
        let role_type = links.role_type();
        let output_tuple_positions = match iterate_mode {
            TernaryIterateMode::Unbound => TuplePositions::Triple(
                Some(relation),
                Some(player),
                Some(role_type),
            ),
            TernaryIterateMode::UnboundInverted => TuplePositions::Triple(
                Some(player),
                Some(relation),
                Some(role_type),
            ),
            TernaryIterateMode::BoundFrom => TuplePositions::Triple(
                Some(player),
                Some(relation),
                Some(role_type),
            ),
            TernaryIterateMode::BoundFromBoundTo => TuplePositions::Triple(
                Some(role_type),
                Some(relation),
                Some(player),
            ),
        };
        let mut extractors: IdMap<ExecutorVariable, LinksExtractor> = IdMap::new();
        extractors.insert(relation, LinksExtractor::Relation);
        extractors.insert(player, LinksExtractor::Player);
        extractors.insert(role_type, LinksExtractor::Role);
        let checker = Checker::new(checks, extractors);

        let candidates = relation_to_player_types.keys();
        let relation_type_range = Bounds {
            min: candidates[0].as_relation_type(),
            max: candidates[candidates.len() - 1].as_relation_type(),
        };
        let (min_player_type, max_player_type) = min_max_types(&player_types);
        proof {
            let at_min = player_types@.index_of(min_player_type);
            let at_max = player_types@.index_of(max_player_type);
            assert(player_types@[at_min] == min_player_type);
            assert(player_types@[at_max] == max_player_type);
        }
        let player_type_range = Bounds {
            min: min_player_type.as_object_type(),
            max: max_player_type.as_object_type(),
        };
        let relation_cache = if iterate_mode.same(&TernaryIterateMode::UnboundInverted) {
            let mut cache: Vec<Relation> = Vec::new();
            let mut index: usize = 0;
            while index < candidates.len()
                invariant
                    index <= candidates@.len(),
                    forall|i: int|
                        0 <= i < candidates@.len() ==> (#[trigger] candidates@[i]) is Relation,
                    cached_relations(candidates@.take(index as int), *thing_manager) == Ok::<
                        _,
                        ConceptReadError,
                    >(cache@),
                decreases candidates@.len() - index,
            {
                proof {
                    let upto = candidates@.take(index + 1);
                    assert(upto.drop_last() =~= candidates@.take(index as int));
                    assert(upto.last() == candidates@[index as int]);
                }
                let read = thing_manager.get_relations_in(candidates[index].as_relation_type());
                match try_collect_relations(read) {
                    Ok(mut instances) => {
                        cache.append(&mut instances);
                    },
                    Err(error) => {
                        proof {
                            lemma_cached_relations_error_extends(
                                candidates@,
                                index + 1,
                                *thing_manager,
                            );
                        }
                        return Err(error);
                    },
                }
                index += 1;
            }
            proof {
                assert(candidates@.take(index as int) =~= candidates@);
            }
            Some(cache)
        } else {
            None
        };
        let filter_fn = create_links_filter_relations_players_roles(
            relation_to_player_types,
            player_to_role_types,
        );
        Ok(
            LinksExecutor {
                links,
                iterate_mode,
                variable_modes,
                tuple_positions: output_tuple_positions,
                relation_type_range,
                player_type_range,
                filter_fn,
                relation_cache,
                checker,
            },
        )
    }

    /// The answers of the constraint for an input row, as tuples.
    ///
    /// The executor reads the links that its mode asks for (see
    /// [`links_read`]), keeps the items that pass the filter by types and
    /// the checks (see [`keeps`]), and turns each into the tuple of its
    /// mode. Where the relation is bound, the row must hold a relation for
    /// it; where the player is bound too, the row must hold an object for
    /// it.
    ///
    /// Where the links are stored in order and reading does not fail, the
    /// answers come in the order of the mode (see [`key_before`]).
    pub fn get_iterator(&self, context: &ExecutionContext, row: &MaybeOwnedRow) -> (result: Result<
        TupleIterator,
        ConceptReadError,
    >)
        requires
            self.wf(),
            self.iterate_mode == TernaryIterateMode::BoundFrom || self.iterate_mode
                == TernaryIterateMode::BoundFromBoundTo ==> holds_relation(
                self.links.relation,
                row.row@,
            ),
            self.iterate_mode == TernaryIterateMode::BoundFromBoundTo ==> holds_object(
                self.links.player,
                row.row@,
            ),
        ensures
            result matches Ok(iterator) && {
                &&& iterator.tuples() == self.tuples_from(
                    links_read(*self, context.thing_manager, row.row@),
                    context.thing_manager,
                    row.row@,
                    shape_for(self.iterate_mode),
                )
                &&& iterator.positions() == self.tuple_positions
                &&& (context.thing_manager.links_ordered() && context.thing_manager.read_fault
                    is None ==> answers_in_order(
                    self.iterate_mode,
                    links_read(*self, context.thing_manager, row.row@).filter(
                        self.passes(context.thing_manager, row.row@),
                    ),
                ))
                &&& match self.iterate_mode {
                    TernaryIterateMode::Unbound => iterator is LinksUnbounded,
                    TernaryIterateMode::UnboundInverted => if self.relation_cache.unwrap()@.len()
                        == 1 {
                        iterator is LinksUnboundedInvertedSingle
                    } else {
                        iterator is LinksUnboundedInvertedMerged
                    },
                    TernaryIterateMode::BoundFrom => iterator is LinksBoundedRelation,
                    TernaryIterateMode::BoundFromBoundTo => iterator is LinksBoundedRelationPlayer,
                }
            },
    {
        let thing_manager = context.thing_manager();
        match self.iterate_mode {
            TernaryIterateMode::Unbound => {
                let iterator = thing_manager.get_links_by_relation_type_range(
                    &self.relation_type_range,
                );
                proof {
                    if thing_manager.links_ordered() && thing_manager.read_fault is None {
                        lemma_read_keeps_order(
                            thing_manager.links@,
                            with_relation_type_in(self.relation_type_range),
                            self.passes(*thing_manager, row.row@),
                        );
                        lemma_ascending_in_order(
                            self.iterate_mode,
                            iterator@.filter(self.passes(*thing_manager, row.row@)),
                        );
                    }
                }
                let as_tuples = self.tuples_of(
                    context,
                    row,
                    iterator,
                    LinksToTuple::RelationPlayerRole,
                );
                Ok(
                    TupleIterator::LinksUnbounded(
                        SortedTupleIterator::new(
                            as_tuples,
                            self.tuple_positions,
                            &self.variable_modes,
                        ),
                    ),
                )
            },
            TernaryIterateMode::UnboundInverted => {
                let cache = match &self.relation_cache {
                    Some(cache) => cache,
                    None => {
                        proof {
                            assert(false);
                        }
                        return Err(ConceptReadError::SnapshotGet);
                    },
                };
                if cache.len() == 1 {
                    let iterator = thing_manager.get_links_by_relation_and_player_type_range(
                        cache[0],
                        &self.player_type_range,
                    );
                    proof {
                        if thing_manager.links_ordered() && thing_manager.read_fault is None {
                            lemma_read_keeps_order(
                                thing_manager.links@,
                                of_relation_with_player_type_in(cache@[0], self.player_type_range),
                                self.passes(*thing_manager, row.row@),
                            );
                            lemma_ascending_in_order(
                                self.iterate_mode,
                                iterator@.filter(self.passes(*thing_manager, row.row@)),
                            );
                        }
                    }
                    let as_tuples = self.tuples_of(
                        context,
                        row,
                        iterator,
                        LinksToTuple::PlayerRelationRole,
                    );
                    Ok(
                        TupleIterator::LinksUnboundedInvertedSingle(
                            SortedTupleIterator::new(
                                as_tuples,
                                self.tuple_positions,
                                &self.variable_modes,
                            ),
                        ),
                    )
                } else {
                    let ghost read = |relation: Relation|
                        read_of(
                            thing_manager.read_fault,
                            thing_manager.links_by_relation_and_player_type_range(
                                relation,
                                self.player_type_range,
                            ),
                        );
                    let mut iterators: Vec<Vec<LinkResult>> = Vec::new();
                    let mut index: usize = 0;
                    while index < cache.len()
                        invariant
                            index <= cache@.len(),
                            read == |relation: Relation|
                                read_of(
                                    thing_manager.read_fault,
                                    thing_manager.links_by_relation_and_player_type_range(
                                        relation,
                                        self.player_type_range,
                                    ),
                                ),
                            stream_views(iterators@) == cache@.take(index as int).map_values(read),
                            self.iterate_mode == TernaryIterateMode::UnboundInverted,
                            thing_manager.links_ordered() && thing_manager.read_fault is None
                                ==> forall|k: int|
                                0 <= k < iterators@.len() ==> all_read((#[trigger] iterators@[k])@)
                                    && sorted_by_player_then_relation(iterators@[k]@),
                        decreases cache@.len() - index,
                    {
                        let iterator = thing_manager.get_links_by_relation_and_player_type_range(
                            cache[index],
                            &self.player_type_range,
                        );
                        let ghost before = iterators@;
                        proof {
                            if thing_manager.links_ordered() && thing_manager.read_fault is None {
                                let everything = |item: LinkResult| true;
                                lemma_read_keeps_order(
                                    thing_manager.links@,
                                    of_relation_with_player_type_in(
                                        cache@[index as int],
                                        self.player_type_range,
                                    ),
                                    everything,
                                );
                                lemma_filter_everything(iterator@, everything);
                                lemma_ascending_in_order(self.iterate_mode, iterator@);
                            }
                        }
                        iterators.push(iterator);
                        proof {
                            assert forall|k: int| 0 <= k < before.len() implies iterators@[k]
                                == before[k] by {}
                            assert(iterators@[before.len() as int] == iterator);
                            assert(stream_views(iterators@) =~= stream_views(before).push(
                                iterator@,
                            ));
                            assert(cache@.take(index + 1).map_values(read) =~= cache@.take(
                                index as int,
                            ).map_values(read).push(read(cache@[index as int])));
                        }
                        index += 1;
                    }
                    proof {
                        assert(cache@.take(index as int) =~= cache@);
                    }
                    let merged = kmerge_links(iterators);
                    proof {
                        if thing_manager.links_ordered() && thing_manager.read_fault is None {
                            let kept = merged@.filter(self.passes(*thing_manager, row.row@));
                            lemma_filter_keeps_order(
                                merged@,
                                self.passes(*thing_manager, row.row@),
                                |earlier: LinkResult, later: LinkResult|
                                    !before_by_player_then_relation(later, earlier),
                            );
                            assert forall|i: int, j: int|
                                0 <= i < j < kept.len() implies in_order(
                                self.iterate_mode,
                                kept[i],
                                kept[j],
                            ) by {
                                assert(!before_by_player_then_relation(kept[j], kept[i]));
                            }
                        }
                    }
                    let as_tuples = self.tuples_of(
                        context,
                        row,
                        merged,
                        LinksToTuple::PlayerRelationRole,
                    );
                    Ok(
                        TupleIterator::LinksUnboundedInvertedMerged(
                            SortedTupleIterator::new(
                                as_tuples,
                                self.tuple_positions,
                                &self.variable_modes,
                            ),
                        ),
                    )
                }
            },
            TernaryIterateMode::BoundFrom => {
                let relation = self.bound_relation_of(row);
                let iterator = thing_manager.get_links_by_relation_and_player_type_range(
                    relation,
                    &self.player_type_range,
                );
                proof {
                    if thing_manager.links_ordered() && thing_manager.read_fault is None {
                        lemma_read_keeps_order(
                            thing_manager.links@,
                            of_relation_with_player_type_in(relation, self.player_type_range),
                            self.passes(*thing_manager, row.row@),
                        );
                        lemma_ascending_in_order(
                            self.iterate_mode,
                            iterator@.filter(self.passes(*thing_manager, row.row@)),
                        );
                    }
                }
                let as_tuples = self.tuples_of(
                    context,
                    row,
                    iterator,
                    LinksToTuple::PlayerRelationRole,
                );
                Ok(
                    TupleIterator::LinksBoundedRelation(
                        SortedTupleIterator::new(
                            as_tuples,
                            self.tuple_positions,
                            &self.variable_modes,
                        ),
                    ),
                )
            },
            TernaryIterateMode::BoundFromBoundTo => {
                let relation = self.bound_relation_of(row);
                let player = self.bound_player_of(row);
                let iterator = thing_manager.get_links_by_relation_and_player(relation, player);
                proof {
                    if thing_manager.links_ordered() && thing_manager.read_fault is None {
                        lemma_read_keeps_order(
                            thing_manager.links@,
                            of_relation_and_player(relation, player),
                            self.passes(*thing_manager, row.row@),
                        );
                        lemma_ascending_in_order(
                            self.iterate_mode,
                            iterator@.filter(self.passes(*thing_manager, row.row@)),
                        );
                    }
                }
                let as_tuples = self.tuples_of(
                    context,
                    row,
                    iterator,
                    LinksToTuple::RoleRelationPlayer,
                );
                Ok(
                    TupleIterator::LinksBoundedRelationPlayer(
                        SortedTupleIterator::new(
                            as_tuples,
                            self.tuple_positions,
                            &self.variable_modes,
                        ),
                    ),
                )
            },
        }
    }

    /// The relation that the row holds for the relation of the constraint.
    fn bound_relation_of(&self, row: &MaybeOwnedRow) -> (relation: Relation)
        requires
            holds_relation(self.links.relation, row.row@),
        ensures
            relation == bound_relation(self.links.relation, row.row@),
    {
        match self.links.relation().as_position() {
            Some(position) => {
                if position.as_usize() < row.len() {
                    match row.get(position) {
                        VariableValue::Thing(Thing::Relation(relation)) => *relation,
                        _ => Relation { type_: RelationType { id: 0 }, id: 0 },
                    }
                } else {
                    Relation { type_: RelationType { id: 0 }, id: 0 }
                }
            },
            None => Relation { type_: RelationType { id: 0 }, id: 0 },
        }
    }

    /// The object that the row holds for the player of the constraint.
    fn bound_player_of(&self, row: &MaybeOwnedRow) -> (player: Object)
        requires
            holds_object(self.links.player, row.row@),
        ensures
            player == bound_object(self.links.player, row.row@),
    {
        let fallback = Object::Relation(Relation { type_: RelationType { id: 0 }, id: 0 });
        match self.links.player().as_position() {
            Some(position) => {
                if position.as_usize() < row.len() {
                    match row.get(position) {
                        VariableValue::Thing(Thing::Entity(entity)) => Object::Entity(*entity),
                        VariableValue::Thing(Thing::Relation(relation)) => Object::Relation(
                            *relation,
                        ),
                        _ => fallback,
                    }
                } else {
                    fallback
                }
            },
            None => fallback,
        }
    }
}

} // verus!
