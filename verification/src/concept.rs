//! Schema types and the instances that a database holds.

use crate::id_map::IrID;
use vstd::prelude::*;

verus! {

/// An entity type, by its identifier in the schema.
#[derive(Debug, Clone, Copy, PartialEq, Eq, Hash, Structural)]
pub struct EntityType {
    pub id: u16,
}

/// A relation type, by its identifier in the schema.
#[derive(Debug, Clone, Copy, PartialEq, Eq, Hash, Structural)]
pub struct RelationType {
    pub id: u16,
}

/// An attribute type, by its identifier in the schema.
#[derive(Debug, Clone, Copy, PartialEq, Eq, Hash, Structural)]
pub struct AttributeType {
    pub id: u16,
}

/// A role type, by its identifier in the schema.
#[derive(Debug, Clone, Copy, PartialEq, Eq, Hash, Structural)]
pub struct RoleType {
    pub id: u16,
}

/// The type of an object: of an entity or of a relation.
#[derive(Debug, Clone, Copy, PartialEq, Eq, Hash, Structural)]
pub enum ObjectType {
    Entity(EntityType),
    Relation(RelationType),
}

/// The kind of a schema type.
#[derive(Debug, Clone, Copy, PartialEq, Eq, Hash, Structural)]
pub enum Kind {
    Entity,
    Attribute,
    Relation,
    Role,
}

/// Any schema type.
#[derive(Debug, Clone, Copy, PartialEq, Eq, Hash, Structural)]
pub enum Type {
    Entity(EntityType),
    Relation(RelationType),
    Attribute(AttributeType),
    RoleType(RoleType),
}

/// The kind of a type.
pub open spec fn kind_of(type_: Type) -> Kind {
    match type_ {
        Type::Entity(_) => Kind::Entity,
        Type::Relation(_) => Kind::Relation,
        Type::Attribute(_) => Kind::Attribute,
        Type::RoleType(_) => Kind::Role,
    }
}

/// The rank of a type's kind in the order of types: entity types come first,
/// then relation types, attribute types and role types.
pub open spec fn type_rank(type_: Type) -> int {
    match type_ {
        Type::Entity(_) => 0,
        Type::Relation(_) => 1,
        Type::Attribute(_) => 2,
        Type::RoleType(_) => 3,
    }
}

/// The identifier of a type within its kind.
pub open spec fn type_id(type_: Type) -> int {
    match type_ {
        Type::Entity(entity) => entity.id as int,
        Type::Relation(relation) => relation.id as int,
        Type::Attribute(attribute) => attribute.id as int,
        Type::RoleType(role) => role.id as int,
    }
}

/// The rank of a type's kind and its identifier: what types are ordered by.
pub open spec fn type_key(type_: Type) -> (u8, u16) {
    (type_rank(type_) as u8, type_id(type_) as u16)
}

/// The order of keys: by rank, then by identifier.
pub open spec fn key_le(left: (u8, u16), right: (u8, u16)) -> bool {
    left.0 < right.0 || (left.0 == right.0 && left.1 <= right.1)
}

/// Two types with the same key are the same type, and the order of the keys
/// is the order of the types.
pub proof fn lemma_type_key(left: Type, right: Type)
    ensures
        type_key(left) == type_key(right) ==> left == right,
        key_le(type_key(left), type_key(right)) == type_le(left, right),
{
}

/// The order of types: by kind, then by identifier.
pub open spec fn type_lt(left: Type, right: Type) -> bool {
    type_rank(left) < type_rank(right) || (type_rank(left) == type_rank(right) && type_id(left)
        < type_id(right))
}

/// `left` is not after `right` in the order of types.
pub open spec fn type_le(left: Type, right: Type) -> bool {
    left == right || type_lt(left, right)
}

impl Type {
    /// The kind of the type.
    pub fn kind(&self) -> (kind: Kind)
        ensures
            kind == kind_of(*self),
    {
        match self {
            Type::Entity(_) => Kind::Entity,
            Type::Relation(_) => Kind::Relation,
            Type::Attribute(_) => Kind::Attribute,
            Type::RoleType(_) => Kind::Role,
        }
    }

    /// The rank of the type's kind.
    pub fn rank(&self) -> (rank: u8)
        ensures
            rank == type_rank(*self),
    {
        match self {
            Type::Entity(_) => 0,
            Type::Relation(_) => 1,
            Type::Attribute(_) => 2,
            Type::RoleType(_) => 3,
        }
    }

    /// The identifier of the type within its kind.
    pub fn id(&self) -> (id: u16)
        ensures
            id == type_id(*self),
    {
        match self {
            Type::Entity(entity) => entity.id,
            Type::Relation(relation) => relation.id,
            Type::Attribute(attribute) => attribute.id,
            Type::RoleType(role) => role.id,
        }
    }

    /// The relation type that the type is; it must be one.
    pub fn as_relation_type(&self) -> (relation_type: RelationType)
        requires
            *self is Relation,
        ensures
            *self == Type::Relation(relation_type),
    {
        match self {
            Type::Relation(relation_type) => *relation_type,
            _ => RelationType { id: 0 },
        }
    }

    /// The object type that the type is; it must be an entity type or a
    /// relation type.
    pub fn as_object_type(&self) -> (object_type: ObjectType)
        requires
            *self is Entity || *self is Relation,
        ensures
            match object_type {
                ObjectType::Entity(entity_type) => *self == Type::Entity(entity_type),
                ObjectType::Relation(relation_type) => *self == Type::Relation(relation_type),
            },
    {
        match self {
            Type::Entity(entity_type) => ObjectType::Entity(*entity_type),
            Type::Relation(relation_type) => ObjectType::Relation(*relation_type),
            _ => ObjectType::Entity(EntityType { id: 0 }),
        }
    }

    /// The rank of the type's kind and its identifier: what types are
    /// ordered by.
    pub fn order_key(&self) -> (key: (u8, u16))
        ensures
            key == type_key(*self),
    {
        (self.rank(), self.id())
    }

    /// The type with the given rank and identifier, if the rank is that of
    /// a kind.
    pub fn from_order_key(key: (u8, u16)) -> (type_: Option<Type>)
        ensures
            match type_ {
                Some(type_) => type_key(type_) == key,
                None => key.0 > 3,
            },
    {
        match key.0 {
            0 => Some(Type::Entity(EntityType { id: key.1 })),
            1 => Some(Type::Relation(RelationType { id: key.1 })),
            2 => Some(Type::Attribute(AttributeType { id: key.1 })),
            3 => Some(Type::RoleType(RoleType { id: key.1 })),
            _ => None,
        }
    }

    /// Whether `self` comes before `other` in the order of types.
    pub fn is_before(&self, other: &Type) -> (before: bool)
        ensures
            before == type_lt(*self, *other),
    {
        self.rank() < other.rank() || (self.rank() == other.rank() && self.id() < other.id())
    }
}

impl IrID for Type {
    fn same_id(&self, other: &Self) -> (same: bool) {
        self.rank() == other.rank() && self.id() == other.id()
    }
}

impl Kind {
    /// Whether the two kinds are the same.
    pub fn same(&self, other: &Kind) -> (same: bool)
        ensures
            same == (*self == *other),
    {
        match (self, other) {
            (Kind::Entity, Kind::Entity) => true,
            (Kind::Attribute, Kind::Attribute) => true,
            (Kind::Relation, Kind::Relation) => true,
            (Kind::Role, Kind::Role) => true,
            _ => false,
        }
    }
}

/// The order of types is a strict total order.
pub proof fn lemma_type_order(a: Type, b: Type, c: Type)
    ensures
        !type_lt(a, a),
        type_lt(a, b) && type_lt(b, c) ==> type_lt(a, c),
        type_lt(a, b) || a == b || type_lt(b, a),
        !(type_lt(a, b) && type_lt(b, a)),
{
}

} // verus!
