//! Whether a definable of the schema exists, and if so, whether it is what a
//! definition asks for.

use crate::concept::{AttributeType, ObjectType, RelationType, RoleType};
use crate::encoding::ValueType;
use crate::thing::ConceptReadError;
use vstd::prelude::*;

verus! {

/// What is found of a definable: nothing; the same as asked for; or
/// something else, which is then handed back.
#[derive(Debug, Clone, Copy, PartialEq, Eq, Structural)]
pub enum DefinableStatus<T> {
    DoesNotExist,
    /// The existing definable is handed back only where it is needed.
    ExistsSame(Option<T>),
    ExistsDifferent(T),
}

/// Whether the instances of a capability are ordered.
#[derive(Debug, Clone, Copy, PartialEq, Eq, Structural)]
pub enum CapabilityOrdering {
    Unordered,
    Ordered,
}

/// The kinds of annotations.
#[derive(Debug, Clone, Copy, PartialEq, Eq, Structural)]
pub enum AnnotationCategory {
    Abstract,
    Distinct,
    Independent,
    Unique,
    Key,
    Cardinality,
    Cascade,
}

/// An annotation of a type or of a capability.
#[derive(Debug, Clone, Copy, PartialEq, Eq, Structural)]
pub enum Annotation {
    Abstract,
    Distinct,
    Independent,
    Unique,
    Key,
    Cardinality { start: u64, end: Option<u64> },
    Cascade,
}

/// The kind of an annotation.
pub open spec fn category_of(annotation: Annotation) -> AnnotationCategory {
    match annotation {
        Annotation::Abstract => AnnotationCategory::Abstract,
        Annotation::Distinct => AnnotationCategory::Distinct,
        Annotation::Independent => AnnotationCategory::Independent,
        Annotation::Unique => AnnotationCategory::Unique,
        Annotation::Key => AnnotationCategory::Key,
        Annotation::Cardinality { .. } => AnnotationCategory::Cardinality,
        Annotation::Cascade => AnnotationCategory::Cascade,
    }
}

impl Annotation {
    /// The kind of the annotation.
    pub fn category(&self) -> (category: AnnotationCategory)
        ensures
            category == category_of(*self),
    {
        match self {
            Annotation::Abstract => AnnotationCategory::Abstract,
            Annotation::Distinct => AnnotationCategory::Distinct,
            Annotation::Independent => AnnotationCategory::Independent,
            Annotation::Unique => AnnotationCategory::Unique,
            Annotation::Key => AnnotationCategory::Key,
            Annotation::Cardinality { .. } => AnnotationCategory::Cardinality,
            Annotation::Cascade => AnnotationCategory::Cascade,
        }
    }
}

/// A field of a struct definition.
#[derive(Debug, Clone, Copy, PartialEq, Eq, Structural)]
pub struct StructDefinitionField {
    pub index: u16,
    pub optional: bool,
    pub value_type: ValueType,
}

impl StructDefinitionField {
    /// Whether the field is optional as said and of the value type said.
    pub fn has_optionality_and_value_type(&self, optional: bool, value_type: ValueType) -> (same:
        bool)
        ensures
            same == (self.optional == optional && self.value_type == value_type),
    {
        self.optional == optional && self.value_type == value_type
    }
}

/// That a relation type relates a role type.
#[derive(Debug, Clone, Copy, PartialEq, Eq, Structural)]
pub struct Relates {
    pub relation: RelationType,
    pub role: RoleType,
}

/// That an object type owns an attribute type.
#[derive(Debug, Clone, Copy, PartialEq, Eq, Structural)]
pub struct Owns {
    pub owner: ObjectType,
    pub attribute: AttributeType,
}

/// That an object type plays a role type.
#[derive(Debug, Clone, Copy, PartialEq, Eq, Structural)]
pub struct Plays {
    pub player: ObjectType,
    pub role: RoleType,
}

/// The status of a type or struct that was looked up by its label or name:
/// it exists, as the same, or it does not. A failed lookup stays the
/// failure.
pub fn get_type_status<T>(found: Result<Option<T>, ConceptReadError>) -> (status: Result<
    DefinableStatus<T>,
    ConceptReadError,
>)
    ensures
        status == (match found {
            Err(error) => Err::<DefinableStatus<T>, _>(error),
            Ok(None) => Ok(DefinableStatus::DoesNotExist),
            Ok(Some(_)) => Ok(DefinableStatus::ExistsSame(None)),
        }),
{
    match found? {
        None => Ok(DefinableStatus::DoesNotExist),
        Some(_) => Ok(DefinableStatus::ExistsSame(None)),
    }
}

/// The status of a struct, from the lookup of its definition key by name.
pub fn get_struct_status<T>(definition_key: Result<Option<T>, ConceptReadError>) -> (status: Result<
    DefinableStatus<T>,
    ConceptReadError,
>)
    ensures
        status == (match definition_key {
            Err(error) => Err::<DefinableStatus<T>, _>(error),
            Ok(None) => Ok(DefinableStatus::DoesNotExist),
            Ok(Some(_)) => Ok(DefinableStatus::ExistsSame(None)),
        }),
{
    get_type_status(definition_key)
}

/// The status of a field of a struct, from the lookup of the field by its
/// key: the same if it is optional as asked and of the value type asked
/// for, and else different.
pub fn get_struct_field_status(
    field: Result<Option<StructDefinitionField>, ConceptReadError>,
    value_type: ValueType,
    optional: bool,
) -> (status: Result<DefinableStatus<StructDefinitionField>, ConceptReadError>)
    ensures
        status == (match field {
            Err(error) => Err::<DefinableStatus<StructDefinitionField>, _>(error),
            Ok(None) => Ok(DefinableStatus::DoesNotExist),
            Ok(Some(field)) => if field.optional == optional && field.value_type == value_type {
                Ok(DefinableStatus::ExistsSame(None))
            } else {
                Ok(DefinableStatus::ExistsDifferent(field))
            },
        }),
{
    let field = match field? {
        Some(field) => field,
        None => {
            return Ok(DefinableStatus::DoesNotExist);
        },
    };
    if field.has_optionality_and_value_type(optional, value_type) {
        Ok(DefinableStatus::ExistsSame(None))
    } else {
        Ok(DefinableStatus::ExistsDifferent(field))
    }
}

/// The first annotation of the given category, if there is one.
pub open spec fn first_of_category(annotations: Seq<Annotation>, category: AnnotationCategory)
    -> Option<Annotation>
    decreases annotations.len(),
{
    if annotations.len() == 0 {
        None
    } else {
        match first_of_category(annotations.drop_last(), category) {
            Some(annotation) => Some(annotation),
            None => if category_of(annotations.last()) == category {
                Some(annotations.last())
            } else {
                None
            },
        }
    }
}

/// The first of `annotations` that is of `category`.
pub fn find_category(annotations: &Vec<Annotation>, category: AnnotationCategory) -> (found: Option<
    Annotation,
>)
    ensures
        found == first_of_category(annotations@, category),
{
    let mut index: usize = 0;
    while index < annotations.len()
        invariant
            index <= annotations@.len(),
            first_of_category(annotations@.take(index as int), category) is None,
        decreases annotations@.len() - index,
    {
        proof {
            let upto = annotations@.take(index + 1);
            assert(upto.drop_last() =~= annotations@.take(index as int));
            assert(upto.last() == annotations@[index as int]);
        }
        if annotations[index].category() == category {
            proof {
                lemma_category_found_extends(annotations@, index + 1, category);
            }
            return Some(annotations[index]);
        }
        index += 1;
    }
    proof {
        assert(annotations@.take(index as int) =~= annotations@);
    }
    None
}

/// What is found in a prefix of the annotations is what is found in all of
/// them.
pub proof fn lemma_category_found_extends(
    annotations: Seq<Annotation>,
    upto: int,
    category: AnnotationCategory,
)
    requires
        0 <= upto <= annotations.len(),
        first_of_category(annotations.take(upto), category) is Some,
    ensures
        first_of_category(annotations, category) == first_of_category(
            annotations.take(upto),
            category,
        ),
    decreases annotations.len() - upto,
{
    if upto < annotations.len() {
        let next = annotations.take(upto + 1);
        assert(next.drop_last() =~= annotations.take(upto));
        lemma_category_found_extends(annotations, upto + 1, category);
    } else {
        assert(annotations.take(upto) =~= annotations);
    }
}

/// Whether `annotations` holds `annotation`.
pub fn contains_annotation(annotations: &Vec<Annotation>, annotation: &Annotation) -> (found: bool)
    ensures
        found == annotations@.contains(*annotation),
{
    let mut index: usize = 0;
    while index < annotations.len()
        invariant
            index <= annotations@.len(),
            forall|j: int| 0 <= j < index ==> annotations@[j] != *annotation,
        decreases annotations@.len() - index,
    {
        if annotations[index] == *annotation {
            return true;
        }
        index += 1;
    }
    false
}

/// What the status of an annotation is, given the annotations that are
/// declared: the same if the annotation is among them; else different, with
/// the first declared annotation of its category; else it does not exist.
pub open spec fn annotation_status(
    existing: Seq<Annotation>,
    annotation: Annotation,
    category: AnnotationCategory,
) -> DefinableStatus<Annotation> {
    if existing.contains(annotation) {
        DefinableStatus::ExistsSame(None)
    } else {
        match first_of_category(existing, category) {
            Some(different) => DefinableStatus::ExistsDifferent(different),
            None => DefinableStatus::DoesNotExist,
        }
    }
}

/// The status of an annotation of a type, from the annotations declared on
/// the type. See [`annotation_status`].
pub fn get_type_annotation_status(
    existing_annotations: Result<Vec<Annotation>, ConceptReadError>,
    annotation: &Annotation,
    annotation_category: AnnotationCategory,
) -> (status: Result<DefinableStatus<Annotation>, ConceptReadError>)
    ensures
        status == (match existing_annotations {
            Err(error) => Err::<DefinableStatus<Annotation>, _>(error),
            Ok(existing) => Ok(annotation_status(existing@, *annotation, annotation_category)),
        }),
{
    let existing_annotations = existing_annotations?;
    if contains_annotation(&existing_annotations, annotation) {
        return Ok(DefinableStatus::ExistsSame(None));
    }
    if let Some(different) = find_category(&existing_annotations, annotation_category) {
        return Ok(DefinableStatus::ExistsDifferent(different));
    }
    Ok(DefinableStatus::DoesNotExist)
}

/// The status of a category of annotations of a type, from the annotations
/// declared on the type: the same if one of them is of the category, and
/// else it does not exist.
pub fn get_type_annotation_category_status(
    existing_annotations: Result<Vec<Annotation>, ConceptReadError>,
    annotation_category: AnnotationCategory,
) -> (status: Result<DefinableStatus<Annotation>, ConceptReadError>)
    ensures
        status == (match existing_annotations {
            Err(error) => Err::<DefinableStatus<Annotation>, _>(error),
            Ok(existing) => if first_of_category(existing@, annotation_category) is Some {
                Ok(DefinableStatus::ExistsSame(None))
            } else {
                Ok(DefinableStatus::DoesNotExist)
            },
        }),
{
    let existing_annotations = existing_annotations?;
    if let Some(_) = find_category(&existing_annotations, annotation_category) {
        return Ok(DefinableStatus::ExistsSame(None));
    }
    Ok(DefinableStatus::DoesNotExist)
}

/// The status of an annotation of a capability, from the annotations
/// declared on the capability. See [`annotation_status`].
pub fn get_capability_annotation_status(
    existing_annotations: Result<Vec<Annotation>, ConceptReadError>,
    annotation: &Annotation,
    annotation_category: AnnotationCategory,
) -> (status: Result<DefinableStatus<Annotation>, ConceptReadError>)
    ensures
        status == (match existing_annotations {
            Err(error) => Err::<DefinableStatus<Annotation>, _>(error),
            Ok(existing) => Ok(annotation_status(existing@, *annotation, annotation_category)),
        }),
{
    get_type_annotation_status(existing_annotations, annotation, annotation_category)
}

/// The status of a category of annotations of a capability, from the
/// annotations declared on the capability.
pub fn get_capability_annotation_category_status(
    existing_annotations: Result<Vec<Annotation>, ConceptReadError>,
    annotation_category: AnnotationCategory,
) -> (status: Result<DefinableStatus<Annotation>, ConceptReadError>)
    ensures
        status == (match existing_annotations {
            Err(error) => Err::<DefinableStatus<Annotation>, _>(error),
            Ok(existing) => if first_of_category(existing@, annotation_category) is Some {
                Ok(DefinableStatus::ExistsSame(None))
            } else {
                Ok(DefinableStatus::DoesNotExist)
            },
        }),
{
    get_type_annotation_category_status(existing_annotations, annotation_category)
}

/// What the status of a definable with one value is: it does not exist,
/// exists as the same, or exists as something else, which is handed back.
pub open spec fn value_status<T>(existing: Option<T>, asked: T) -> DefinableStatus<T> {
    match existing {
        None => DefinableStatus::DoesNotExist,
        Some(existing) => if existing == asked {
            DefinableStatus::ExistsSame(None)
        } else {
            DefinableStatus::ExistsDifferent(existing)
        },
    }
}

/// The status of an object type as the supertype of a type, from the lookup
/// of the type's supertype.
pub fn get_sub_status(
    existing_supertype: Result<Option<ObjectType>, ConceptReadError>,
    supertype: ObjectType,
) -> (status: Result<DefinableStatus<ObjectType>, ConceptReadError>)
    ensures
        status == (match existing_supertype {
            Err(error) => Err::<DefinableStatus<ObjectType>, _>(error),
            Ok(existing) => Ok(value_status(existing, supertype)),
        }),
{
    let existing_supertype = match existing_supertype? {
        Some(existing) => existing,
        None => {
            return Ok(DefinableStatus::DoesNotExist);
        },
    };
    Ok(
        if existing_supertype == supertype {
            DefinableStatus::ExistsSame(None)
        } else {
            DefinableStatus::ExistsDifferent(existing_supertype)
        },
    )
}

/// The status of a value type of an attribute type, from the lookup of the
/// attribute type's value type.
pub fn get_value_type_status(
    existing_value_type: Result<Option<ValueType>, ConceptReadError>,
    value_type: ValueType,
) -> (status: Result<DefinableStatus<ValueType>, ConceptReadError>)
    ensures
        status == (match existing_value_type {
            Err(error) => Err::<DefinableStatus<ValueType>, _>(error),
            Ok(existing) => Ok(value_status(existing, value_type)),
        }),
{
    let existing_value_type = match existing_value_type? {
        Some(existing) => existing,
        None => {
            return Ok(DefinableStatus::DoesNotExist);
        },
    };
    Ok(
        if existing_value_type == value_type {
            DefinableStatus::ExistsSame(None)
        } else {
            DefinableStatus::ExistsDifferent(existing_value_type)
        },
    )
}

/// What the status of an ordered capability is, given the lookup of the
/// capability and the lookup of its ordering: the capability does not
/// exist; or it exists with the ordering asked for, or with another one,
/// and is handed back with its ordering either way. The ordering is looked
/// at only where the capability exists; a failed lookup stays the failure.
pub open spec fn ordered_status<T>(
    existing: Result<Option<T>, ConceptReadError>,
    existing_ordering: Result<CapabilityOrdering, ConceptReadError>,
    ordering: CapabilityOrdering,
) -> Result<DefinableStatus<(T, CapabilityOrdering)>, ConceptReadError> {
    match existing {
        Err(error) => Err(error),
        Ok(None) => Ok(DefinableStatus::DoesNotExist),
        Ok(Some(capability)) => match existing_ordering {
            Err(error) => Err(error),
            Ok(found) => if found == ordering {
                Ok(DefinableStatus::ExistsSame(Some((capability, found))))
            } else {
                Ok(DefinableStatus::ExistsDifferent((capability, found)))
            },
        },
    }
}

/// The status of a relates, from the lookup of the relates by the name of
/// its role, and the lookup of the ordering of the role. See
/// [`ordered_status`].
pub fn get_relates_status(
    existing_relates: Result<Option<Relates>, ConceptReadError>,
    existing_ordering: Result<CapabilityOrdering, ConceptReadError>,
    ordering: CapabilityOrdering,
) -> (status: Result<DefinableStatus<(Relates, CapabilityOrdering)>, ConceptReadError>)
    ensures
        status == ordered_status(existing_relates, existing_ordering, ordering),
{
    let existing_relates = match existing_relates? {
        Some(existing) => existing,
        None => {
            return Ok(DefinableStatus::DoesNotExist);
        },
    };
    let existing_ordering = existing_ordering?;
    Ok(
        if existing_ordering == ordering {
            DefinableStatus::ExistsSame(Some((existing_relates, existing_ordering)))
        } else {
            DefinableStatus::ExistsDifferent((existing_relates, existing_ordering))
        },
    )
}

/// The status of an owns, from the lookup of the owns and the lookup of its
/// ordering. See [`ordered_status`].
pub fn get_owns_status(
    existing_owns: Result<Option<Owns>, ConceptReadError>,
    existing_ordering: Result<CapabilityOrdering, ConceptReadError>,
    ordering: CapabilityOrdering,
) -> (status: Result<DefinableStatus<(Owns, CapabilityOrdering)>, ConceptReadError>)
    ensures
        status == ordered_status(existing_owns, existing_ordering, ordering),
{
    let existing_owns = match existing_owns? {
        Some(existing) => existing,
        None => {
            return Ok(DefinableStatus::DoesNotExist);
        },
    };
    let existing_ordering = existing_ordering?;
    Ok(
        if existing_ordering == ordering {
            DefinableStatus::ExistsSame(Some((existing_owns, existing_ordering)))
        } else {
            DefinableStatus::ExistsDifferent((existing_owns, existing_ordering))
        },
    )
}

/// The status of a plays, from the lookup of the plays: if it exists, it is
/// the same, and is handed back.
pub fn get_plays_status(existing_plays: Result<Option<Plays>, ConceptReadError>) -> (status: Result<
    DefinableStatus<Plays>,
    ConceptReadError,
>)
    ensures
        status == (match existing_plays {
            Err(error) => Err::<DefinableStatus<Plays>, _>(error),
            Ok(None) => Ok(DefinableStatus::DoesNotExist),
            Ok(Some(plays)) => Ok(DefinableStatus::ExistsSame(Some(plays))),
        }),
{
    let existing_plays = match existing_plays? {
        Some(existing) => existing,
        None => {
            return Ok(DefinableStatus::DoesNotExist);
        },
    };
    Ok(DefinableStatus::ExistsSame(Some(existing_plays)))
}

} // verus!
