//! The instances of a database, and the reads that executors make of them.

use crate::concept::{
    lemma_type_order, type_le, AttributeType, EntityType, ObjectType, RelationType, RoleType, Type,
};
use crate::encoding::ValueType;
use crate::parameters::Value;
use vstd::prelude::*;

verus! {

/// An entity: its type and its identifier among the instances of the type.
#[derive(Debug, Clone, Copy, PartialEq, Eq, Hash, Structural)]
pub struct Entity {
    pub type_: EntityType,
    pub id: u64,
}

/// A relation: its type and its identifier among the instances of the type.
#[derive(Debug, Clone, Copy, PartialEq, Eq, Hash, Structural)]
pub struct Relation {
    pub type_: RelationType,
    pub id: u64,
}

/// An object: an entity or a relation.
#[derive(Debug, Clone, Copy, PartialEq, Eq, Hash, Structural)]
pub enum Object {
    Entity(Entity),
    Relation(Relation),
}

/// An attribute, by its type, the type of its value, and its identifier
/// among the attributes of the type.
#[derive(Debug, Clone, Copy, PartialEq, Eq, Hash, Structural)]
pub struct AttributeVertex {
    pub type_: AttributeType,
    pub value_type: ValueType,
    pub id: u64,
}

/// That an object owns an attribute, and how often.
pub type Ownership = (Object, AttributeVertex, u64);

/// An instance of any kind.
#[derive(Debug, Clone, Copy, PartialEq, Eq, Hash, Structural)]
pub enum Thing {
    Entity(Entity),
    Relation(Relation),
    Attribute(AttributeVertex),
}

/// A player of a role in a relation, with the type of the role.
#[derive(Debug, Clone, Copy, PartialEq, Eq, Hash, Structural)]
pub struct RolePlayer {
    pub player: Object,
    pub role_type: RoleType,
}

/// A failed read of the database.
#[derive(Debug, Clone, Copy, PartialEq, Eq, Structural)]
pub enum ConceptReadError {
    SnapshotGet,
    SnapshotIterate,
    /// An attribute is stored without its value.
    CorruptMissingMandatoryValue,
}

/// A failed write of the database.
#[derive(Debug, Clone, Copy, PartialEq, Eq, Structural)]
pub enum ConceptWriteError {
    /// A read that the write needs has failed.
    ConceptRead { source: ConceptReadError },
}

/// One link of a relation: the relation, the player with its role, and how
/// often the player plays the role in the relation.
pub type Link = (Relation, RolePlayer, u64);

/// What a read of links yields for one link: the link, or the failure of the
/// read.
pub type LinkResult = Result<Link, ConceptReadError>;

/// The relations come in the order of their types, then of their
/// identifiers.
pub open spec fn relation_lt(left: Relation, right: Relation) -> bool {
    left.type_.id < right.type_.id || (left.type_.id == right.type_.id && left.id < right.id)
}

/// The links come in the order of their relations, then of their players,
/// then of the types of their roles.
pub open spec fn link_lt(left: Link, right: Link) -> bool {
    relation_lt(left.0, right.0) || (left.0 == right.0 && (object_lt(
        left.1.player,
        right.1.player,
    ) || (left.1.player == right.1.player && left.1.role_type.id < right.1.role_type.id)))
}

/// Whether the links stand in strictly ascending order.
pub open spec fn links_ascending(links: Seq<Link>) -> bool {
    forall|i: int, j: int| 0 <= i < j < links.len() ==> link_lt(links[i], links[j])
}

/// The rank of an object's kind in the order of objects: entities come
/// before relations.
pub open spec fn object_rank(object: Object) -> int {
    match object {
        Object::Entity(_) => 0,
        Object::Relation(_) => 1,
    }
}

/// The identifier of an object's type.
pub open spec fn object_type_id(object: Object) -> int {
    match object {
        Object::Entity(entity) => entity.type_.id as int,
        Object::Relation(relation) => relation.type_.id as int,
    }
}

/// The identifier of an object among the instances of its type.
pub open spec fn object_id(object: Object) -> int {
    match object {
        Object::Entity(entity) => entity.id as int,
        Object::Relation(relation) => relation.id as int,
    }
}

/// The objects come in the order of their kinds, then of their types, then
/// of their identifiers.
pub open spec fn object_lt(left: Object, right: Object) -> bool {
    object_rank(left) < object_rank(right) || (object_rank(left) == object_rank(right) && (
    object_type_id(left) < object_type_id(right) || (object_type_id(left) == object_type_id(right)
        && object_id(left) < object_id(right))))
}

/// The type of an object.
pub open spec fn object_type_of(object: Object) -> ObjectType {
    match object {
        Object::Entity(entity) => ObjectType::Entity(entity.type_),
        Object::Relation(relation) => ObjectType::Relation(relation.type_),
    }
}

/// An object type as a type.
pub open spec fn type_of_object_type(object_type: ObjectType) -> Type {
    match object_type {
        ObjectType::Entity(entity_type) => Type::Entity(entity_type),
        ObjectType::Relation(relation_type) => Type::Relation(relation_type),
    }
}

impl Relation {
    /// The type of the relation.
    pub fn type_(&self) -> (relation_type: RelationType)
        ensures
            relation_type == self.type_,
    {
        self.type_
    }

    /// Whether `self` comes before `other` in the order of relations.
    pub fn is_before(&self, other: &Relation) -> (before: bool)
        ensures
            before == relation_lt(*self, *other),
    {
        self.type_.id < other.type_.id || (self.type_.id == other.type_.id && self.id < other.id)
    }
}

impl Object {
    /// The type of the object.
    pub fn type_(&self) -> (object_type: ObjectType)
        ensures
            object_type == object_type_of(*self),
    {
        match self {
            Object::Entity(entity) => ObjectType::Entity(entity.type_),
            Object::Relation(relation) => ObjectType::Relation(relation.type_),
        }
    }

    /// The rank of the object's kind, the identifier of its type, and its
    /// own identifier: what objects are ordered by.
    pub fn order_key(&self) -> (key: (u8, u16, u64))
        ensures
            key.0 == object_rank(*self),
            key.1 == object_type_id(*self),
            key.2 == object_id(*self),
    {
        match self {
            Object::Entity(entity) => (0, entity.type_.id, entity.id),
            Object::Relation(relation) => (1, relation.type_.id, relation.id),
        }
    }

    /// Whether `self` comes before `other` in the order of objects.
    pub fn is_before(&self, other: &Object) -> (before: bool)
        ensures
            before == object_lt(*self, *other),
    {
        let left = self.order_key();
        let right = other.order_key();
        left.0 < right.0 || (left.0 == right.0 && (left.1 < right.1 || (left.1 == right.1 && left.2
            < right.2)))
    }
}

impl ObjectType {
    /// The object type as a type.
    pub fn as_type(&self) -> (type_: Type)
        ensures
            type_ == type_of_object_type(*self),
    {
        match self {
            ObjectType::Entity(entity_type) => Type::Entity(*entity_type),
            ObjectType::Relation(relation_type) => Type::Relation(*relation_type),
        }
    }
}

impl RolePlayer {
    /// The player.
    pub fn player(&self) -> (player: Object)
        ensures
            player == self.player,
    {
        self.player
    }

    /// The type of the role that the player plays.
    pub fn role_type(&self) -> (role_type: RoleType)
        ensures
            role_type == self.role_type,
    {
        self.role_type
    }
}

/// An inclusive interval.
#[derive(Debug, Clone, Copy, PartialEq, Eq, Structural)]
pub struct Bounds<T> {
    pub min: T,
    pub max: T,
}

/// Whether a relation type lies in an interval of relation types.
pub open spec fn relation_type_within(relation_type: RelationType, range: Bounds<RelationType>)
    -> bool {
    range.min.id <= relation_type.id <= range.max.id
}

/// Whether an object type lies in an interval of object types, in the order
/// of types.
pub open spec fn object_type_within(object_type: ObjectType, range: Bounds<ObjectType>) -> bool {
    type_le(type_of_object_type(range.min), type_of_object_type(object_type))
        && type_le(type_of_object_type(object_type), type_of_object_type(range.max))
}

/// The instances of a database as they stand at one moment, and whether
/// reading them fails.
pub struct ThingManager {
    pub relations: Vec<Relation>,
    pub links: Vec<Link>,
    /// The attributes, each with its value.
    pub attributes: Vec<(AttributeVertex, Value)>,
    /// Which object owns which attribute, and how often.
    pub ownerships: Vec<Ownership>,
    pub read_fault: Option<ConceptReadError>,
}

/// What a read yields: the items, each as a success; or, where reading
/// fails, the failure alone.
pub open spec fn read_of<T>(fault: Option<ConceptReadError>, items: Seq<T>) -> Seq<
    Result<T, ConceptReadError>,
> {
    match fault {
        Some(error) => seq![Err(error)],
        None => items.map_values(|item: T| Ok(item)),
    }
}

/// Whether a relation is of the given type.
pub open spec fn of_relation_type(relation_type: RelationType) -> spec_fn(Relation) -> bool {
    |relation: Relation| relation.type_ == relation_type
}

/// Whether the relation of a link has a type that lies in `range`.
pub open spec fn with_relation_type_in(range: Bounds<RelationType>) -> spec_fn(Link) -> bool {
    |link: Link| relation_type_within(link.0.type_, range)
}

/// Whether a link is one of `relation`, with a player whose type lies in
/// `range`.
pub open spec fn of_relation_with_player_type_in(relation: Relation, range: Bounds<ObjectType>)
    -> spec_fn(Link) -> bool {
    |link: Link| link.0 == relation && object_type_within(object_type_of(link.1.player), range)
}

/// Whether a link is one of `relation` with the player `player`.
pub open spec fn of_relation_and_player(relation: Relation, player: Object) -> spec_fn(Link) -> bool {
    |link: Link| link.0 == relation && link.1.player == player
}

impl ThingManager {
    /// Whether the links are stored in the order of links, as a storage that
    /// is sorted by key holds them.
    pub open spec fn links_ordered(&self) -> bool {
        links_ascending(self.links@)
    }

    /// The relations of the given type, in the order in which they are
    /// stored.
    pub open spec fn relations_in(&self, relation_type: RelationType) -> Seq<Relation> {
        self.relations@.filter(of_relation_type(relation_type))
    }

    /// The links of the relations whose type lies in `range`, in the order
    /// in which they are stored.
    pub open spec fn links_by_relation_type_range(&self, range: Bounds<RelationType>) -> Seq<
        Link,
    > {
        self.links@.filter(with_relation_type_in(range))
    }

    /// The links of `relation` whose player has a type that lies in `range`,
    /// in the order in which they are stored.
    pub open spec fn links_by_relation_and_player_type_range(
        &self,
        relation: Relation,
        range: Bounds<ObjectType>,
    ) -> Seq<Link> {
        self.links@.filter(of_relation_with_player_type_in(relation, range))
    }

    /// The links of `relation` with the player `player`, in the order in
    /// which they are stored.
    pub open spec fn links_by_relation_and_player(&self, relation: Relation, player: Object) -> Seq<
        Link,
    > {
        self.links@.filter(of_relation_and_player(relation, player))
    }

    /// What a read of `items` yields: see [`read_of`].
    fn read<T: Copy>(&self, items: Vec<T>) -> (read: Vec<Result<T, ConceptReadError>>)
        ensures
            read@ == read_of(self.read_fault, items@),
    {
        let mut read: Vec<Result<T, ConceptReadError>> = Vec::new();
        match self.read_fault {
            Some(error) => {
                read.push(Err(error));
                assert(read@ =~= read_of(self.read_fault, items@));
            },
            None => {
                let ghost wrap = |item: T| Ok::<T, ConceptReadError>(item);
                let mut index: usize = 0;
                while index < items.len()
                    invariant
                        index <= items@.len(),
                        wrap == |item: T| Ok::<T, ConceptReadError>(item),
                        read@ == items@.take(index as int).map_values(wrap),
                    decreases items@.len() - index,
                {
                    read.push(Ok(items[index]));
                    proof {
                        assert(items@.take(index + 1).map_values(wrap) =~= items@.take(
                            index as int,
                        ).map_values(wrap).push(Ok(items@[index as int])));
                    }
                    index += 1;
                }
                proof {
                    assert(items@.take(index as int) =~= items@);
                }
            },
        }
        read
    }

    /// Reads the relations of the given type.
    pub fn get_relations_in(&self, relation_type: RelationType) -> (read: Vec<
        Result<Relation, ConceptReadError>,
    >)
        ensures
            read@ == read_of(self.read_fault, self.relations_in(relation_type)),
    {
        let ghost keep = of_relation_type(relation_type);
        let mut found: Vec<Relation> = Vec::new();
        let mut index: usize = 0;
        while index < self.relations.len()
            invariant
                index <= self.relations@.len(),
                keep == of_relation_type(relation_type),
                found@ == self.relations@.take(index as int).filter(keep),
            decreases self.relations@.len() - index,
        {
            proof {
                let upto = self.relations@.take(index + 1);
                assert(upto.drop_last() =~= self.relations@.take(index as int));
                assert(upto.last() == self.relations@[index as int]);
                reveal(Seq::filter);
            }
            if self.relations[index].type_.id == relation_type.id {
                found.push(self.relations[index]);
            }
            index += 1;
        }
        proof {
            assert(self.relations@.take(index as int) =~= self.relations@);
        }
        self.read(found)
    }

    /// Reads the links of the relations whose type lies in `range`.
    pub fn get_links_by_relation_type_range(&self, range: &Bounds<RelationType>) -> (read: Vec<
        LinkResult,
    >)
        ensures
            read@ == read_of(self.read_fault, self.links_by_relation_type_range(*range)),
    {
        let ghost keep = with_relation_type_in(*range);
        let mut found: Vec<Link> = Vec::new();
        let mut index: usize = 0;
        while index < self.links.len()
            invariant
                index <= self.links@.len(),
                keep == with_relation_type_in(*range),
                found@ == self.links@.take(index as int).filter(keep),
            decreases self.links@.len() - index,
        {
            proof {
                let upto = self.links@.take(index + 1);
                assert(upto.drop_last() =~= self.links@.take(index as int));
                assert(upto.last() == self.links@[index as int]);
                reveal(Seq::filter);
            }
            let type_id = self.links[index].0.type_.id;
            if range.min.id <= type_id && type_id <= range.max.id {
                found.push(self.links[index]);
            }
            index += 1;
        }
        proof {
            assert(self.links@.take(index as int) =~= self.links@);
        }
        self.read(found)
    }

    /// Reads the links of `relation` whose player has a type that lies in
    /// `range`.
    pub fn get_links_by_relation_and_player_type_range(
        &self,
        relation: Relation,
        range: &Bounds<ObjectType>,
    ) -> (read: Vec<LinkResult>)
        ensures
            read@ == read_of(
                self.read_fault,
                self.links_by_relation_and_player_type_range(relation, *range),
            ),
    {
        let ghost keep = of_relation_with_player_type_in(relation, *range);
        let mut found: Vec<Link> = Vec::new();
        let mut index: usize = 0;
        let min = range.min.as_type();
        let max = range.max.as_type();
        while index < self.links.len()
            invariant
                index <= self.links@.len(),
                min == type_of_object_type(range.min),
                max == type_of_object_type(range.max),
                keep == of_relation_with_player_type_in(relation, *range),
                found@ == self.links@.take(index as int).filter(keep),
            decreases self.links@.len() - index,
        {
            proof {
                let upto = self.links@.take(index + 1);
                assert(upto.drop_last() =~= self.links@.take(index as int));
                assert(upto.last() == self.links@[index as int]);
                reveal(Seq::filter);
            }
            let link = self.links[index];
            let player_type = link.1.player.type_().as_type();
            proof {
                lemma_type_order(min, player_type, max);
            }
            if link.0 == relation && !player_type.is_before(&min) && !max.is_before(&player_type) {
                found.push(link);
            }
            index += 1;
        }
        proof {
            assert(self.links@.take(index as int) =~= self.links@);
        }
        self.read(found)
    }

    /// Reads the links of `relation` with the player `player`.
    pub fn get_links_by_relation_and_player(&self, relation: Relation, player: Object) -> (read:
        Vec<LinkResult>)
        ensures
            read@ == read_of(
                self.read_fault,
                self.links_by_relation_and_player(relation, player),
            ),
    {
        let ghost keep = of_relation_and_player(relation, player);
        let mut found: Vec<Link> = Vec::new();
        let mut index: usize = 0;
        while index < self.links.len()
            invariant
                index <= self.links@.len(),
                keep == of_relation_and_player(relation, player),
                found@ == self.links@.take(index as int).filter(keep),
            decreases self.links@.len() - index,
        {
            proof {
                let upto = self.links@.take(index + 1);
                assert(upto.drop_last() =~= self.links@.take(index as int));
                assert(upto.last() == self.links@[index as int]);
                reveal(Seq::filter);
            }
            let link = self.links[index];
            if link.0 == relation && link.1.player == player {
                found.push(link);
            }
            index += 1;
        }
        proof {
            assert(self.links@.take(index as int) =~= self.links@);
        }
        self.read(found)
    }

    /// Whether `relation` has the player `player` in the role `role_type`.
    pub fn has_role_player(&self, relation: Relation, player: Object, role_type: RoleType) -> (result:
        Result<bool, ConceptReadError>)
        ensures
            result == (match self.read_fault {
                Some(error) => Err::<bool, _>(error),
                None => Ok(
                    exists|i: int|
                        0 <= i < self.links@.len() && (#[trigger] self.links@[i]).0 == relation
                            && self.links@[i].1 == (RolePlayer { player, role_type }),
                ),
            }),
    {
        if let Some(error) = self.read_fault {
            return Err(error);
        }
        let mut index: usize = 0;
        while index < self.links.len()
            invariant
                index <= self.links@.len(),
                self.read_fault is None,
                forall|i: int|
                    0 <= i < index ==> !((#[trigger] self.links@[i]).0 == relation
                        && self.links@[i].1 == (RolePlayer { player, role_type })),
            decreases self.links@.len() - index,
        {
            let link = self.links[index];
            if link.0 == relation && link.1.player == player && link.1.role_type == role_type {
                assert(self.links@[index as int].0 == relation && self.links@[index as int].1 == (
                RolePlayer { player, role_type }));
                return Ok(true);
            }
            index += 1;
        }
        Ok(false)
    }
}

} // verus!
