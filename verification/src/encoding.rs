//! Identities of schema definitions and the types of values.

use crate::id_map::IrID;
use vstd::prelude::*;

verus! {

/// The key under which a definition (a struct, a function) is stored.
#[derive(Debug, Clone, Copy, PartialEq, Eq, Hash, Structural)]
pub struct DefinitionKey {
    pub id: u16,
}

impl IrID for DefinitionKey {
    fn same_id(&self, other: &Self) -> (same: bool) {
        self.id == other.id
    }
}

impl IrID for usize {
    fn same_id(&self, other: &Self) -> (same: bool) {
        *self == *other
    }
}

/// The type of a value.
#[derive(Debug, Clone, Copy, PartialEq, Eq, Hash, Structural)]
pub enum ValueType {
    Boolean,
    Long,
    Double,
    Decimal,
    Date,
    DateTime,
    DateTimeTZ,
    Duration,
    String,
    Struct(DefinitionKey),
}

} // verus!
