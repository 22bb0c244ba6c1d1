//! The registry of the variables of one query.

use crate::id_map::IdMap;
use crate::pattern::{Constraint, Reducer};
use crate::variable::{narrowest_of, Variable, VariableCategory, VariableOptionality};
use vstd::prelude::*;

verus! {

/// Where a variable's category comes from.
#[derive(Debug, Clone, Copy, PartialEq, Eq, Structural)]
pub enum VariableCategorySource {
    Constraint(Constraint),
    Reduce(Reducer),
    Argument,
}

/// An error in how a query is written.
#[derive(Debug, Clone)]
pub enum RepresentationError {
    /// A variable is used as two categories that no concept can share.
    VariableCategoryMismatch {
        variable_name: String,
        category_1: VariableCategory,
        category_2: VariableCategory,
    },
}

/// The name under which a variable without a name is reported.
pub open spec fn internal_variable_name() -> Seq<char> {
    "$<INTERNAL>"@
}

/// The variables of a query: their names, categories and optionality.
pub struct VariableRegistry {
    variable_names: IdMap<Variable, String>,
    variable_id_allocator: u16,
    variable_categories: IdMap<Variable, (VariableCategory, VariableCategorySource)>,
    variable_optionality: IdMap<Variable, VariableOptionality>,
}

impl VariableRegistry {
    /// Well-formedness: the maps are well-formed, and every variable they
    /// speak of has been allocated.
    pub closed spec fn wf(&self) -> bool {
        &&& self.variable_names.wf()
        &&& self.variable_categories.wf()
        &&& self.variable_optionality.wf()
        &&& forall|variable: Variable| #[trigger]
            self.variable_names@.contains_key(variable) ==> variable.id
                < self.variable_id_allocator
        &&& forall|variable: Variable| #[trigger]
            self.variable_categories@.contains_key(variable) ==> variable.id
                < self.variable_id_allocator
        &&& forall|variable: Variable| #[trigger]
            self.variable_optionality@.contains_key(variable) ==> variable.id
                < self.variable_id_allocator && self.variable_optionality@[variable]
                == VariableOptionality::Optional
    }

    /// How many variables have been allocated.
    pub closed spec fn allocated(&self) -> nat {
        self.variable_id_allocator as nat
    }

    /// The names of the named variables.
    pub closed spec fn names(&self) -> Map<Variable, Seq<char>> {
        self.variable_names@.map_values(|name: String| name@)
    }

    /// The category of each variable that has one, with its source.
    pub closed spec fn categories(&self) -> Map<
        Variable,
        (VariableCategory, VariableCategorySource),
    > {
        self.variable_categories@
    }

    /// The optionality of each variable for which one is recorded.
    pub closed spec fn optionality(&self) -> Map<Variable, VariableOptionality> {
        self.variable_optionality@
    }

    /// The named variables in the order of their registration.
    pub closed spec fn named_order(&self) -> Seq<Variable> {
        self.variable_names.key_order()
    }

    /// Every variable that a well-formed registry speaks of was allocated by
    /// it, and the registration order lists the named variables, each once.
    pub proof fn lemma_wf(&self)
        requires
            self.wf(),
        ensures
            forall|variable: Variable| #[trigger]
                self.names().contains_key(variable) ==> variable.id < self.allocated(),
            forall|variable: Variable| #[trigger]
                self.categories().contains_key(variable) ==> variable.id < self.allocated(),
            forall|variable: Variable| #[trigger]
                self.optionality().contains_key(variable) ==> variable.id < self.allocated(),
            self.named_order().no_duplicates(),
            self.named_order().to_set() == self.names().dom(),
    {
        self.variable_names.lemma_key_order();
        assert(self.names().dom() =~= self.variable_names@.dom());
        assert forall|variable: Variable| #[trigger]
            self.names().contains_key(variable) implies variable.id < self.allocated() by {
            assert(self.variable_names@.contains_key(variable));
        }
    }

    /// A registry without variables.
    pub fn new() -> (registry: VariableRegistry)
        ensures
            registry.wf(),
            registry.allocated() == 0,
            registry.names() == Map::<Variable, Seq<char>>::empty(),
            registry.categories() == Map::<
                Variable,
                (VariableCategory, VariableCategorySource),
            >::empty(),
            registry.optionality() == Map::<Variable, VariableOptionality>::empty(),
            registry.named_order() == Seq::<Variable>::empty(),
    {
        let registry = VariableRegistry {
            variable_names: IdMap::new(),
            variable_id_allocator: 0,
            variable_categories: IdMap::new(),
            variable_optionality: IdMap::new(),
        };
        assert(registry.names() =~= Map::<Variable, Seq<char>>::empty());
        registry
    }

    /// How many variables have been allocated.
    pub fn allocated_variables(&self) -> (count: u16)
        ensures
            count == self.allocated(),
    {
        self.variable_id_allocator
    }

    /// Allocates the next variable.
    fn allocate_variable(&mut self, anonymous: bool) -> (variable: Variable)
        requires
            old(self).wf(),
            old(self).allocated() < u16::MAX,
        ensures
            final(self).wf(),
            variable == (Variable { id: old(self).allocated() as u16, anonymous }),
            final(self).allocated() == old(self).allocated() + 1,
            final(self).variable_names == old(self).variable_names,
            final(self).variable_categories == old(self).variable_categories,
            final(self).variable_optionality == old(self).variable_optionality,
    {
        let variable = if anonymous {
            Variable::new_anonymous(self.variable_id_allocator)
        } else {
            Variable::new(self.variable_id_allocator)
        };
        self.variable_id_allocator += 1;
        variable
    }

    /// Allocates a variable and records its name.
    pub fn register_variable_named(&mut self, name: String) -> (variable: Variable)
        requires
            old(self).wf(),
            old(self).allocated() < u16::MAX,
        ensures
            final(self).wf(),
            variable == (Variable { id: old(self).allocated() as u16, anonymous: false }),
            final(self).allocated() == old(self).allocated() + 1,
            final(self).names() == old(self).names().insert(variable, name@),
            final(self).named_order() == old(self).named_order().push(variable),
            final(self).categories() == old(self).categories(),
            final(self).optionality() == old(self).optionality(),
    {
        let variable = self.allocate_variable(false);
        let ghost before = self.variable_names@;
        self.variable_names.insert(variable, name);
        proof {
            assert(!before.contains_key(variable));
            assert(self.names() =~= old(self).names().insert(variable, name@));
        }
        variable
    }

    /// Allocates a variable without a name.
    pub fn register_anonymous_variable(&mut self) -> (variable: Variable)
        requires
            old(self).wf(),
            old(self).allocated() < u16::MAX,
        ensures
            final(self).wf(),
            variable == (Variable { id: old(self).allocated() as u16, anonymous: true }),
            final(self).allocated() == old(self).allocated() + 1,
            final(self).names() == old(self).names(),
            final(self).named_order() == old(self).named_order(),
            final(self).categories() == old(self).categories(),
            final(self).optionality() == old(self).optionality(),
    {
        self.allocate_variable(true)
    }

    /// Records that `variable` is of `category`, as the constraint `source`
    /// says. See [`category_after`] and [`category_conflict`].
    pub fn set_assigned_value_variable_category(
        &mut self,
        variable: Variable,
        category: VariableCategory,
        source: Constraint,
    ) -> (result: Result<(), RepresentationError>)
        requires
            old(self).wf(),
            variable.id < old(self).allocated(),
        ensures
            final(self).wf(),
            result is Err <==> category_conflict(old(self).categories(), variable, category),
            result matches Err(error) ==> *final(self) == *old(self) && mismatch_reported(
                error,
                old(self).names(),
                old(self).categories(),
                variable,
                category,
            ),
            final(self).categories() == category_after(
                old(self).categories(),
                variable,
                category,
                VariableCategorySource::Constraint(source),
            ),
            final(self).names() == old(self).names(),
            final(self).named_order() == old(self).named_order(),
            final(self).optionality() == old(self).optionality(),
            final(self).allocated() == old(self).allocated(),
    {
        self.set_variable_category(variable, category, VariableCategorySource::Constraint(source))
    }

    /// Records that `variable` is of `category`. A variable without a
    /// category takes it. One that has a category keeps the narrowest
    /// category that lies within the old and the new one, and takes `source`
    /// where that changes its category. If no category lies within both, the
    /// call fails and the registry stays as it was.
    pub fn set_variable_category(
        &mut self,
        variable: Variable,
        category: VariableCategory,
        source: VariableCategorySource,
    ) -> (result: Result<(), RepresentationError>)
        requires
            old(self).wf(),
            variable.id < old(self).allocated(),
        ensures
            final(self).wf(),
            result is Err <==> category_conflict(old(self).categories(), variable, category),
            result matches Err(error) ==> *final(self) == *old(self) && mismatch_reported(
                error,
                old(self).names(),
                old(self).categories(),
                variable,
                category,
            ),
            final(self).categories() == category_after(
                old(self).categories(),
                variable,
                category,
                source,
            ),
            final(self).names() == old(self).names(),
            final(self).named_order() == old(self).named_order(),
            final(self).optionality() == old(self).optionality(),
            final(self).allocated() == old(self).allocated(),
    {
        let existing = match self.variable_categories.get(&variable) {
            None => None,
            Some(entry) => Some(entry.0),
        };
        match existing {
            None => {
                self.variable_categories.insert(variable, (category, source));
                Ok(())
            },
            Some(existing_category) => {
                match existing_category.narrowest(category) {
                    None => {
                        let variable_name = match self.variable_names.get(&variable) {
                            Some(name) => name.clone(),
                            None => "$<INTERNAL>".to_owned(),
                        };
                        Err(
                            RepresentationError::VariableCategoryMismatch {
                                variable_name,
                                category_1: category,
                                category_2: existing_category,
                            },
                        )
                    },
                    Some(narrowed) => {
                        if narrowed == existing_category {
                            assert(self.categories() =~= category_after(
                                old(self).categories(),
                                variable,
                                category,
                                source,
                            ));
                            Ok(())
                        } else {
                            self.variable_categories.insert(variable, (narrowed, source));
                            Ok(())
                        }
                    },
                }
            },
        }
    }

    /// Records that `variable` is optional, or forgets what was recorded of
    /// its optionality.
    pub fn set_variable_is_optional(&mut self, variable: Variable, optional: bool)
        requires
            old(self).wf(),
            variable.id < old(self).allocated(),
        ensures
            final(self).wf(),
            final(self).optionality() == (if optional {
                old(self).optionality().insert(variable, VariableOptionality::Optional)
            } else {
                old(self).optionality().remove(variable)
            }),
            final(self).names() == old(self).names(),
            final(self).named_order() == old(self).named_order(),
            final(self).categories() == old(self).categories(),
            final(self).allocated() == old(self).allocated(),
    {
        if optional {
            self.variable_optionality.insert(variable, VariableOptionality::Optional);
        } else {
            self.variable_optionality.remove(&variable);
        }
    }

    /// The variables that have a category, each with its category, in the
    /// order in which they first got one.
    pub fn variable_categories(&self) -> (pairs: Vec<(Variable, VariableCategory)>)
        requires
            self.wf(),
        ensures
            pairs@.len() == self.categories().len(),
            pairs@.map_values(|pair: (Variable, VariableCategory)| pair.0).no_duplicates(),
            forall|i: int|
                0 <= i < pairs@.len() ==> self.categories().contains_key(
                    (#[trigger] pairs@[i]).0,
                ) && self.categories()[pairs@[i].0].0 == pairs@[i].1,
            forall|variable: Variable| #[trigger]
                self.categories().contains_key(variable) ==> pairs@.contains(
                    (variable, self.categories()[variable].0),
                ),
    {
        let keys = self.variable_categories.keys();
        let mut pairs: Vec<(Variable, VariableCategory)> = Vec::new();
        let mut index: usize = 0;
        proof {
            self.variable_categories.lemma_key_order();
        }
        while index < keys.len()
            invariant
                self.wf(),
                index <= keys@.len(),
                keys@.to_set() == self.variable_categories@.dom(),
                pairs@.len() == index,
                forall|i: int|
                    0 <= i < index ==> (#[trigger] pairs@[i]) == (
                        keys@[i],
                        self.variable_categories@[keys@[i]].0,
                    ),
            decreases keys@.len() - index,
        {
            let variable = keys[index];
            assert(keys@.to_set().contains(variable));
            let entry = self.variable_categories.get(&variable);
            pairs.push((variable, entry.unwrap().0));
            index += 1;
        }
        proof {
            let firsts = pairs@.map_values(|pair: (Variable, VariableCategory)| pair.0);
            assert(firsts =~= keys@);
            assert forall|i: int| 0 <= i < pairs@.len() implies self.categories().contains_key(
                (#[trigger] pairs@[i]).0,
            ) && self.categories()[pairs@[i].0].0 == pairs@[i].1 by {
                assert(keys@.to_set().contains(keys@[i]));
            }
            assert forall|variable: Variable| #[trigger]
                self.categories().contains_key(variable) implies pairs@.contains(
                (variable, self.categories()[variable].0),
            ) by {
                assert(keys@.to_set().contains(variable));
                let at = keys@.index_of(variable);
                assert(pairs@[at] == (variable, self.categories()[variable].0));
            }
        }
        pairs
    }

    /// The names of the named variables.
    pub fn variable_names(&self) -> (names: &IdMap<Variable, String>)
        requires
            self.wf(),
        ensures
            names.wf(),
            names@.map_values(|name: String| name@) == self.names(),
            names.key_order() == self.named_order(),
    {
        &self.variable_names
    }

    /// The name of `variable`, if it has one.
    pub fn get_variable_name(&self, variable: Variable) -> (name: Option<&String>)
        requires
            self.wf(),
        ensures
            match name {
                Some(name) => self.names().contains_key(variable) && name@
                    == self.names()[variable],
                None => !self.names().contains_key(variable),
            },
    {
        self.variable_names.get(&variable)
    }

    /// The category of `variable`, if it has one.
    pub fn get_variable_category(&self, variable: Variable) -> (category: Option<
        VariableCategory,
    >)
        requires
            self.wf(),
        ensures
            category == (if self.categories().contains_key(variable) {
                Some(self.categories()[variable].0)
            } else {
                None
            }),
    {
        match self.variable_categories.get(&variable) {
            Some(entry) => Some(entry.0),
            None => None,
        }
    }

    /// What is recorded of the optionality of `variable`.
    pub fn get_variable_optionality(&self, variable: Variable) -> (optionality: Option<
        VariableOptionality,
    >)
        requires
            self.wf(),
        ensures
            optionality == (if self.optionality().contains_key(variable) {
                Some(self.optionality()[variable])
            } else {
                None
            }),
    {
        match self.variable_optionality.get(&variable) {
            Some(optionality) => Some(*optionality),
            None => None,
        }
    }

    /// Whether `variable` is recorded as optional.
    pub fn is_variable_optional(&self, variable: Variable) -> (optional: bool)
        requires
            self.wf(),
        ensures
            optional == (self.optionality().contains_key(variable)
                && self.optionality()[variable] == VariableOptionality::Optional),
    {
        match self.variable_optionality.get(&variable) {
            Some(VariableOptionality::Optional) => true,
            _ => false,
        }
    }

    /// The variables that are recorded as optional, in the order in which
    /// they were recorded.
    pub fn optional_variables(&self) -> (variables: Vec<Variable>)
        requires
            self.wf(),
        ensures
            variables@.no_duplicates(),
            variables@.to_set() == self.optionality().dom(),
            forall|variable: Variable| #[trigger]
                self.optionality().contains_key(variable) ==> self.optionality()[variable]
                    == VariableOptionality::Optional,
    {
        self.variable_optionality.keys()
    }

    /// Whether `variable` has a name.
    pub fn has_variable_as_named(&self, variable: &Variable) -> (named: bool)
        ensures
            named == self.names().contains_key(*variable),
    {
        self.variable_names.contains_key(variable)
    }

    /// Allocates the variable of a function's argument: named, required, and
    /// of the given category.
    pub fn register_function_argument(&mut self, name: &str, category: VariableCategory) -> (variable:
        Variable)
        requires
            old(self).wf(),
            old(self).allocated() < u16::MAX,
        ensures
            final(self).wf(),
            variable == (Variable { id: old(self).allocated() as u16, anonymous: false }),
            final(self).allocated() == old(self).allocated() + 1,
            final(self).names() == old(self).names().insert(variable, name@),
            final(self).named_order() == old(self).named_order().push(variable),
            final(self).categories() == old(self).categories().insert(
                variable,
                (category, VariableCategorySource::Argument),
            ),
            final(self).optionality() == old(self).optionality(),
    {
        let variable = self.register_variable_named(name.to_owned());
        let set = self.set_variable_category(variable, category, VariableCategorySource::Argument);
        assert(set is Ok);
        self.set_variable_is_optional(variable, false);
        proof {
            assert(!old(self).optionality().contains_key(variable));
            assert(self.optionality() =~= old(self).optionality());
        }
        variable
    }

    /// Allocates the variable that a reduction assigns: named, of the given
    /// category and optionality.
    pub fn register_reduce_output_variable(
        &mut self,
        name: String,
        category: VariableCategory,
        is_optional: bool,
        reducer: Reducer,
    ) -> (variable: Variable)
        requires
            old(self).wf(),
            old(self).allocated() < u16::MAX,
        ensures
            final(self).wf(),
            variable == (Variable { id: old(self).allocated() as u16, anonymous: false }),
            final(self).allocated() == old(self).allocated() + 1,
            final(self).names() == old(self).names().insert(variable, name@),
            final(self).named_order() == old(self).named_order().push(variable),
            final(self).categories() == old(self).categories().insert(
                variable,
                (category, VariableCategorySource::Reduce(reducer)),
            ),
            final(self).optionality() == (if is_optional {
                old(self).optionality().insert(variable, VariableOptionality::Optional)
            } else {
                old(self).optionality()
            }),
    {
        let variable = self.register_variable_named(name);
        let set = self.set_variable_category(
            variable,
            category,
            VariableCategorySource::Reduce(reducer),
        );
        assert(set is Ok);
        self.set_variable_is_optional(variable, is_optional);
        proof {
            assert(!old(self).optionality().contains_key(variable));
            if !is_optional {
                assert(self.optionality() =~= old(self).optionality());
            }
        }
        variable
    }
}

/// Whether giving `variable` the category `category` fails: it has a category
/// already, and no category lies within both.
pub open spec fn category_conflict(
    categories: Map<Variable, (VariableCategory, VariableCategorySource)>,
    variable: Variable,
    category: VariableCategory,
) -> bool {
    categories.contains_key(variable) && narrowest_of(categories[variable].0, category) is None
}

/// The categories after `variable` was given `category` on behalf of
/// `source`.
pub open spec fn category_after(
    categories: Map<Variable, (VariableCategory, VariableCategorySource)>,
    variable: Variable,
    category: VariableCategory,
    source: VariableCategorySource,
) -> Map<Variable, (VariableCategory, VariableCategorySource)> {
    if !categories.contains_key(variable) {
        categories.insert(variable, (category, source))
    } else {
        match narrowest_of(categories[variable].0, category) {
            None => categories,
            Some(narrowed) => if narrowed == categories[variable].0 {
                categories
            } else {
                categories.insert(variable, (narrowed, source))
            },
        }
    }
}

/// What the error of a conflict holds: the variable's name, or a fixed text
/// for a variable without one; the category that was asked for; and the one
/// that the variable has.
pub open spec fn mismatch_reported(
    error: RepresentationError,
    names: Map<Variable, Seq<char>>,
    categories: Map<Variable, (VariableCategory, VariableCategorySource)>,
    variable: Variable,
    category: VariableCategory,
) -> bool {
    match error {
        RepresentationError::VariableCategoryMismatch { variable_name, category_1, category_2 } => {
            &&& variable_name@ == (if names.contains_key(variable) {
                names[variable]
            } else {
                internal_variable_name()
            })
            &&& category_1 == category
            &&& category_2 == categories[variable].0
        },
    }
}

} // verus!
