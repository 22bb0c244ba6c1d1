//! Labels of schema types.

use vstd::prelude::*;

verus! {

/// The label of a schema type: a name, and for role types the scope (the
/// relation type's name) that the name lives in.
#[derive(Debug, Clone)]
pub struct Label {
    pub name: String,
    pub scope: Option<String>,
}

impl Label {
    /// The bare name, without the scope.
    pub fn name(&self) -> (name: &str)
        ensures
            name@ == self.name@,
    {
        self.name.as_str()
    }

    /// The scope of the label, if it has one.
    pub fn scope(&self) -> (scope: &Option<String>)
        ensures
            *scope == self.scope,
    {
        &self.scope
    }
}

} // verus!
