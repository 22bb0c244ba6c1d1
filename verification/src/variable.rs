//! Variables, row positions and variable categories.

use crate::id_map::IrID;
use vstd::prelude::*;

verus! {

/// A query variable: an identity within one query, and whether the query
/// text gave it a name.
#[derive(Debug, Clone, Copy, PartialEq, Eq, Hash, Structural)]
pub struct Variable {
    pub id: u16,
    pub anonymous: bool,
}

impl Variable {
    /// A variable that goes by a name.
    pub fn new(id: u16) -> (variable: Variable)
        ensures
            variable == (Variable { id, anonymous: false }),
    {
        Variable { id, anonymous: false }
    }

    /// A variable without a name.
    pub fn new_anonymous(id: u16) -> (variable: Variable)
        ensures
            variable == (Variable { id, anonymous: true }),
    {
        Variable { id, anonymous: true }
    }
}

impl IrID for Variable {
    fn same_id(&self, other: &Self) -> (same: bool) {
        self.id == other.id && self.anonymous == other.anonymous
    }
}

/// A zero-based index into an execution row.
#[derive(Debug, Clone, Copy, PartialEq, Eq, Hash, Structural)]
pub struct VariablePosition {
    pub position: u32,
}

impl VariablePosition {
    /// The position with the given index.
    pub fn new(position: u32) -> (result: VariablePosition)
        ensures
            result.position == position,
    {
        VariablePosition { position }
    }

    /// The index as a `usize`.
    pub fn as_usize(&self) -> (index: usize)
        ensures
            index == self.position,
    {
        self.position as usize
    }
}

impl IrID for VariablePosition {
    fn same_id(&self, other: &Self) -> (same: bool) {
        self.position == other.position
    }
}

/// What kind of concept a variable stands for.
///
/// The categories form a forest: `Thing` is above `Object` and `Attribute`,
/// `Object` is above `Entity` and `Relation`, `Type` is above `Role`, and
/// `Value` stands alone.
#[derive(Debug, Clone, Copy, PartialEq, Eq, Hash, Structural)]
pub enum VariableCategory {
    Entity,
    Relation,
    Attribute,
    Value,
    Type,
    Role,
    Thing,
    Object,
}

/// Whether every concept of category `narrow` is also one of category `wide`.
pub open spec fn is_within(narrow: VariableCategory, wide: VariableCategory) -> bool {
    ||| narrow == wide
    ||| wide == VariableCategory::Thing && (narrow == VariableCategory::Object || narrow
        == VariableCategory::Attribute || narrow == VariableCategory::Entity || narrow
        == VariableCategory::Relation)
    ||| wide == VariableCategory::Object && (narrow == VariableCategory::Entity || narrow
        == VariableCategory::Relation)
    ||| wide == VariableCategory::Type && narrow == VariableCategory::Role
}

/// The narrowest category that lies within both, if the two are compatible.
pub open spec fn narrowest_of(left: VariableCategory, right: VariableCategory) -> Option<
    VariableCategory,
> {
    if is_within(left, right) {
        Some(left)
    } else if is_within(right, left) {
        Some(right)
    } else {
        None
    }
}

impl VariableCategory {
    /// Whether `self` lies within `wide`.
    pub fn is_within(&self, wide: VariableCategory) -> (within: bool)
        ensures
            within == is_within(*self, wide),
    {
        match (*self, wide) {
            (VariableCategory::Entity, VariableCategory::Entity) => true,
            (VariableCategory::Relation, VariableCategory::Relation) => true,
            (VariableCategory::Attribute, VariableCategory::Attribute) => true,
            (VariableCategory::Value, VariableCategory::Value) => true,
            (VariableCategory::Type, VariableCategory::Type) => true,
            (VariableCategory::Role, VariableCategory::Role) => true,
            (VariableCategory::Thing, VariableCategory::Thing) => true,
            (VariableCategory::Object, VariableCategory::Object) => true,
            (VariableCategory::Object, VariableCategory::Thing) => true,
            (VariableCategory::Attribute, VariableCategory::Thing) => true,
            (VariableCategory::Entity, VariableCategory::Thing) => true,
            (VariableCategory::Relation, VariableCategory::Thing) => true,
            (VariableCategory::Entity, VariableCategory::Object) => true,
            (VariableCategory::Relation, VariableCategory::Object) => true,
            (VariableCategory::Role, VariableCategory::Type) => true,
            _ => false,
        }
    }

    /// The narrowest category compatible with both `self` and `other`, or
    /// `None` where no concept can be of both.
    pub fn narrowest(&self, other: VariableCategory) -> (narrowed: Option<VariableCategory>)
        ensures
            narrowed == narrowest_of(*self, other),
    {
        if self.is_within(other) {
            Some(*self)
        } else if other.is_within(*self) {
            Some(other)
        } else {
            None
        }
    }

    /// The category's name.
    pub fn name(&self) -> (name: &'static str)
        ensures
            name@ == category_name(*self),
    {
        match self {
            VariableCategory::Entity => "entity",
            VariableCategory::Relation => "relation",
            VariableCategory::Attribute => "attribute",
            VariableCategory::Value => "value",
            VariableCategory::Type => "type",
            VariableCategory::Role => "role",
            VariableCategory::Thing => "thing",
            VariableCategory::Object => "object",
        }
    }
}

/// The name that a category is printed under.
pub open spec fn category_name(category: VariableCategory) -> Seq<char> {
    match category {
        VariableCategory::Entity => "entity"@,
        VariableCategory::Relation => "relation"@,
        VariableCategory::Attribute => "attribute"@,
        VariableCategory::Value => "value"@,
        VariableCategory::Type => "type"@,
        VariableCategory::Role => "role"@,
        VariableCategory::Thing => "thing"@,
        VariableCategory::Object => "object"@,
    }
}

/// Narrowing is a meet: the result lies within both categories, and every
/// category within both lies within the result; it does not depend on the
/// order of the two, and narrowing a category with itself changes nothing.
pub proof fn lemma_narrowest_is_meet(left: VariableCategory, right: VariableCategory)
    ensures
        narrowest_of(left, right) == narrowest_of(right, left),
        narrowest_of(left, left) == Some(left),
        narrowest_of(left, right) matches Some(narrowed) ==> is_within(narrowed, left)
            && is_within(narrowed, right),
        forall|lower: VariableCategory|
            is_within(lower, left) && is_within(lower, right) ==> (narrowest_of(left, right)
                matches Some(narrowed) && is_within(lower, narrowed)),
{
}

/// Whether a variable must be bound in every answer.
#[derive(Debug, Clone, Copy, PartialEq, Eq, Hash, Structural)]
pub enum VariableOptionality {
    Required,
    Optional,
}

} // verus!
