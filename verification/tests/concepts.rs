use query_pipeline::attribute::{Attribute, AttributeIterator, ConceptStatus, SnapshotIteratorError};
use query_pipeline::concept::{AttributeType, EntityType, ObjectType, RelationType, RoleType};
use query_pipeline::definable_status::{
    get_capability_annotation_category_status, get_capability_annotation_status, get_owns_status,
    get_plays_status, get_relates_status, get_struct_field_status, get_struct_status, get_sub_status,
    get_type_annotation_category_status, get_type_annotation_status, get_type_status, get_value_type_status,
    Annotation, AnnotationCategory, CapabilityOrdering, DefinableStatus, Owns, Plays, Relates,
    StructDefinitionField,
};
use query_pipeline::encoding::{DefinitionKey, ValueType};
use query_pipeline::error::{
    FunctionReadError, FunctionReadErrorSource, FunctionRepresentationError, QueryError, SnapshotGetError,
};
use query_pipeline::parameters::Value;
use query_pipeline::pattern::FunctionID;
use query_pipeline::pipeline::{ExecutableCompilationError, FetchCompilationError};
use query_pipeline::thing::{
    AttributeVertex, ConceptReadError, ConceptWriteError, Entity, Object, Relation, ThingManager,
};
use query_pipeline::variable::Variable;
use query_pipeline::write::WriteCompilationError;

const NAME: AttributeType = AttributeType { id: 30 };
const AGE: AttributeType = AttributeType { id: 31 };

fn name(id: u64) -> AttributeVertex {
    AttributeVertex { type_: NAME, value_type: ValueType::String, id }
}

fn age(id: u64) -> AttributeVertex {
    AttributeVertex { type_: AGE, value_type: ValueType::Long, id }
}

fn person(id: u64) -> Object {
    Object::Entity(Entity { type_: EntityType { id: 1 }, id })
}

fn company(id: u64) -> Object {
    Object::Relation(Relation { type_: RelationType { id: 2 }, id })
}

fn store() -> ThingManager {
    ThingManager {
        relations: vec![],
        links: vec![],
        attributes: vec![
            (name(1), Value::String("Ada".to_string())),
            (age(1), Value::Long(36)),
            (name(2), Value::String("Bob".to_string())),
        ],
        ownerships: vec![
            (person(1), name(1), 1),
            (person(1), age(1), 1),
            (person(2), name(2), 1),
            (company(1), name(1), 3),
            (person(2), age(1), 2),
        ],
        read_fault: None,
    }
}

#[test]
fn attribute_value_is_read_once() {
    let mut thing_manager = store();
    let mut attribute = Attribute::new(name(1));
    assert_eq!(attribute.type_(), NAME);
    assert_eq!(attribute.value_type(), ValueType::String);
    assert_eq!(attribute.iid(), name(1));
    assert_eq!(attribute.vertex(), name(1));
    assert_eq!(attribute.get_status(&thing_manager), ConceptStatus::Put);
    assert_eq!(attribute.errors(&thing_manager), Ok(vec![]));
    assert_eq!(attribute.value(&thing_manager), Ok(Value::String("Ada".to_string())));
    // The value is kept: a later read does not go to the storage.
    thing_manager.read_fault = Some(ConceptReadError::SnapshotGet);
    assert_eq!(attribute.value(&thing_manager), Ok(Value::String("Ada".to_string())));
    assert_eq!(attribute.as_reference().value(&thing_manager), Ok(Value::String("Ada".to_string())));
    // Once owned by itself, the attribute has its value not yet read.
    assert_eq!(attribute.into_owned().value(&thing_manager), Err(ConceptReadError::SnapshotGet));
    // A failed read is not kept.
    let mut other = Attribute::new(age(1));
    assert_eq!(other.value(&thing_manager), Err(ConceptReadError::SnapshotGet));
    thing_manager.read_fault = None;
    assert_eq!(other.value(&thing_manager), Ok(Value::Long(36)));
    let mut missing = Attribute::new(age(9));
    assert_eq!(missing.value(&thing_manager), Err(ConceptReadError::CorruptMissingMandatoryValue));
    assert_eq!(Attribute::new(age(9)).into_vertex(), age(9));
}

#[test]
fn attributes_are_equal_by_identity() {
    let thing_manager = store();
    let mut read = Attribute::new(name(1));
    read.value(&thing_manager).unwrap();
    assert!(read == Attribute::new(name(1)));
    assert!(read != Attribute::new(name(2)));
    assert!(Attribute::new(name(1)) != Attribute::new(age(1)));
}

#[test]
fn owners_of_an_attribute() {
    let mut thing_manager = store();
    let attribute = Attribute::new(name(1));
    assert!(attribute.has_owners(&thing_manager));
    assert_eq!(attribute.get_owners(&thing_manager), vec![Ok((person(1), 1)), Ok((company(1), 3))]);
    let unowned = Attribute::new(name(7));
    assert!(!unowned.has_owners(&thing_manager));
    assert_eq!(unowned.get_owners(&thing_manager), vec![]);
    thing_manager.read_fault = Some(ConceptReadError::SnapshotIterate);
    assert_eq!(attribute.get_owners(&thing_manager), vec![Err(ConceptReadError::SnapshotIterate)]);
}

#[test]
fn deleting_an_attribute_takes_its_ownerships_away() {
    let mut thing_manager = store();
    assert_eq!(Attribute::new(age(1)).delete(&mut thing_manager), Ok(()));
    assert_eq!(
        thing_manager.ownerships,
        vec![(person(1), name(1), 1), (person(2), name(2), 1), (company(1), name(1), 3)]
    );
    assert_eq!(
        thing_manager.attributes,
        vec![(name(1), Value::String("Ada".to_string())), (name(2), Value::String("Bob".to_string()))]
    );
    assert_eq!(Attribute::new(name(1)).delete(&mut thing_manager), Ok(()));
    assert_eq!(thing_manager.ownerships, vec![(person(2), name(2), 1)]);
    assert_eq!(thing_manager.attributes, vec![(name(2), Value::String("Bob".to_string()))]);
    // Deleting what is not there changes nothing.
    assert_eq!(Attribute::new(name(1)).delete(&mut thing_manager), Ok(()));
    assert_eq!(thing_manager.ownerships, vec![(person(2), name(2), 1)]);
}

#[test]
fn failed_read_of_the_owners_fails_the_delete() {
    let mut thing_manager = store();
    thing_manager.read_fault = Some(ConceptReadError::SnapshotIterate);
    assert_eq!(
        Attribute::new(age(1)).delete(&mut thing_manager),
        Err(ConceptWriteError::ConceptRead { source: ConceptReadError::SnapshotIterate })
    );
    assert_eq!(thing_manager.ownerships, store().ownerships);
    assert_eq!(thing_manager.attributes, store().attributes);
}

#[test]
fn attribute_iterator() {
    let mut iterator = AttributeIterator::new(vec![Ok(name(1)), Err(SnapshotIteratorError { code: 5 }), Ok(age(1))]);
    assert_eq!(iterator.peek(), Some(Ok(Attribute::new(name(1)))));
    assert_eq!(iterator.peek(), Some(Ok(Attribute::new(name(1)))));
    assert_eq!(iterator.next(), Some(Ok(Attribute::new(name(1)))));
    assert_eq!(iterator.peek(), Some(Err(ConceptReadError::SnapshotIterate)));
    assert_eq!(iterator.next(), Some(Err(ConceptReadError::SnapshotIterate)));
    assert_eq!(iterator.collect_cloned(), vec![Attribute::new(age(1))]);

    let mut empty = AttributeIterator::new_empty();
    assert_eq!(empty.peek(), None);
    assert_eq!(empty.next(), None);
    assert_eq!(empty.collect_cloned(), vec![]);

    let mut all = AttributeIterator::new(vec![Ok(name(1)), Ok(name(2))]);
    assert_eq!(all.next(), Some(Ok(Attribute::new(name(1)))));
    assert_eq!(all.next(), Some(Ok(Attribute::new(name(2)))));
    assert_eq!(all.next(), None);
    assert_eq!(all.next(), None);
    assert_eq!(
        AttributeIterator::new(vec![Ok(name(1)), Ok(name(2))]).collect_cloned(),
        vec![Attribute::new(name(1)), Attribute::new(name(2))]
    );
}

#[test]
fn status_of_types_and_structs() {
    let failed: Result<Option<EntityType>, ConceptReadError> = Err(ConceptReadError::SnapshotGet);
    assert_eq!(get_type_status(failed), Err(ConceptReadError::SnapshotGet));
    assert_eq!(get_type_status::<EntityType>(Ok(None)), Ok(DefinableStatus::DoesNotExist));
    assert_eq!(get_type_status(Ok(Some(EntityType { id: 1 }))), Ok(DefinableStatus::ExistsSame(None)));
    assert_eq!(get_struct_status::<DefinitionKey>(Ok(None)), Ok(DefinableStatus::DoesNotExist));
    assert_eq!(get_struct_status(Ok(Some(DefinitionKey { id: 1 }))), Ok(DefinableStatus::ExistsSame(None)));
    assert_eq!(
        get_struct_status::<DefinitionKey>(Err(ConceptReadError::SnapshotIterate)),
        Err(ConceptReadError::SnapshotIterate)
    );

    let field = StructDefinitionField { index: 0, optional: true, value_type: ValueType::Long };
    assert_eq!(get_struct_field_status(Ok(None), ValueType::Long, true), Ok(DefinableStatus::DoesNotExist));
    assert_eq!(
        get_struct_field_status(Ok(Some(field)), ValueType::Long, true),
        Ok(DefinableStatus::ExistsSame(None))
    );
    assert_eq!(
        get_struct_field_status(Ok(Some(field)), ValueType::Long, false),
        Ok(DefinableStatus::ExistsDifferent(field))
    );
    assert_eq!(
        get_struct_field_status(Ok(Some(field)), ValueType::Double, true),
        Ok(DefinableStatus::ExistsDifferent(field))
    );
    assert_eq!(
        get_struct_field_status(Err(ConceptReadError::SnapshotGet), ValueType::Long, true),
        Err(ConceptReadError::SnapshotGet)
    );
}

#[test]
fn status_of_annotations() {
    let few = Annotation::Cardinality { start: 0, end: Some(1) };
    let many = Annotation::Cardinality { start: 0, end: None };
    let declared = vec![Annotation::Abstract, few, many];
    assert_eq!(
        get_type_annotation_status(Ok(declared.clone()), &few, AnnotationCategory::Cardinality),
        Ok(DefinableStatus::ExistsSame(None))
    );
    assert_eq!(
        get_type_annotation_status(
            Ok(declared.clone()),
            &Annotation::Cardinality { start: 1, end: None },
            AnnotationCategory::Cardinality
        ),
        Ok(DefinableStatus::ExistsDifferent(few))
    );
    assert_eq!(
        get_type_annotation_status(Ok(declared.clone()), &Annotation::Key, AnnotationCategory::Key),
        Ok(DefinableStatus::DoesNotExist)
    );
    assert_eq!(
        get_capability_annotation_status(Ok(vec![many]), &few, AnnotationCategory::Cardinality),
        Ok(DefinableStatus::ExistsDifferent(many))
    );
    assert_eq!(
        get_capability_annotation_status(Ok(vec![]), &few, AnnotationCategory::Cardinality),
        Ok(DefinableStatus::DoesNotExist)
    );
    assert_eq!(
        get_capability_annotation_status(Err(ConceptReadError::SnapshotGet), &few, AnnotationCategory::Key),
        Err(ConceptReadError::SnapshotGet)
    );
    assert_eq!(
        get_type_annotation_category_status(Ok(declared.clone()), AnnotationCategory::Abstract),
        Ok(DefinableStatus::ExistsSame(None))
    );
    assert_eq!(
        get_type_annotation_category_status(Ok(declared.clone()), AnnotationCategory::Unique),
        Ok(DefinableStatus::DoesNotExist)
    );
    assert_eq!(
        get_capability_annotation_category_status(Ok(declared), AnnotationCategory::Cardinality),
        Ok(DefinableStatus::ExistsSame(None))
    );
    assert_eq!(
        get_capability_annotation_category_status(Err(ConceptReadError::SnapshotIterate), AnnotationCategory::Key),
        Err(ConceptReadError::SnapshotIterate)
    );
    for (annotation, category) in [
        (Annotation::Abstract, AnnotationCategory::Abstract),
        (Annotation::Distinct, AnnotationCategory::Distinct),
        (Annotation::Independent, AnnotationCategory::Independent),
        (Annotation::Unique, AnnotationCategory::Unique),
        (Annotation::Key, AnnotationCategory::Key),
        (few, AnnotationCategory::Cardinality),
        (Annotation::Cascade, AnnotationCategory::Cascade),
    ] {
        assert_eq!(annotation.category(), category);
    }
}

#[test]
fn status_of_values_and_capabilities() {
    let person = ObjectType::Entity(EntityType { id: 1 });
    let animal = ObjectType::Entity(EntityType { id: 2 });
    assert_eq!(get_sub_status(Ok(None), person), Ok(DefinableStatus::DoesNotExist));
    assert_eq!(get_sub_status(Ok(Some(person)), person), Ok(DefinableStatus::ExistsSame(None)));
    assert_eq!(get_sub_status(Ok(Some(animal)), person), Ok(DefinableStatus::ExistsDifferent(animal)));
    assert_eq!(get_sub_status(Err(ConceptReadError::SnapshotGet), person), Err(ConceptReadError::SnapshotGet));

    assert_eq!(get_value_type_status(Ok(None), ValueType::Long), Ok(DefinableStatus::DoesNotExist));
    assert_eq!(
        get_value_type_status(Ok(Some(ValueType::Long)), ValueType::Long),
        Ok(DefinableStatus::ExistsSame(None))
    );
    assert_eq!(
        get_value_type_status(Ok(Some(ValueType::String)), ValueType::Long),
        Ok(DefinableStatus::ExistsDifferent(ValueType::String))
    );
    assert_eq!(
        get_value_type_status(Err(ConceptReadError::SnapshotIterate), ValueType::Long),
        Err(ConceptReadError::SnapshotIterate)
    );

    let relates = Relates { relation: RelationType { id: 5 }, role: RoleType { id: 6 } };
    let ordered = CapabilityOrdering::Ordered;
    let unordered = CapabilityOrdering::Unordered;
    assert_eq!(get_relates_status(Ok(None), Ok(ordered), ordered), Ok(DefinableStatus::DoesNotExist));
    // The ordering is not looked at where the relates does not exist.
    assert_eq!(
        get_relates_status(Ok(None), Err(ConceptReadError::SnapshotGet), ordered),
        Ok(DefinableStatus::DoesNotExist)
    );
    assert_eq!(
        get_relates_status(Ok(Some(relates)), Ok(ordered), ordered),
        Ok(DefinableStatus::ExistsSame(Some((relates, ordered))))
    );
    assert_eq!(
        get_relates_status(Ok(Some(relates)), Ok(unordered), ordered),
        Ok(DefinableStatus::ExistsDifferent((relates, unordered)))
    );
    assert_eq!(
        get_relates_status(Ok(Some(relates)), Err(ConceptReadError::SnapshotGet), ordered),
        Err(ConceptReadError::SnapshotGet)
    );
    assert_eq!(
        get_relates_status(Err(ConceptReadError::SnapshotIterate), Ok(ordered), ordered),
        Err(ConceptReadError::SnapshotIterate)
    );

    let owns = Owns { owner: person, attribute: NAME };
    assert_eq!(get_owns_status(Ok(None), Ok(ordered), unordered), Ok(DefinableStatus::DoesNotExist));
    assert_eq!(
        get_owns_status(Ok(Some(owns)), Ok(unordered), unordered),
        Ok(DefinableStatus::ExistsSame(Some((owns, unordered))))
    );
    assert_eq!(
        get_owns_status(Ok(Some(owns)), Ok(ordered), unordered),
        Ok(DefinableStatus::ExistsDifferent((owns, ordered)))
    );
    assert_eq!(
        get_owns_status(Ok(Some(owns)), Err(ConceptReadError::SnapshotGet), unordered),
        Err(ConceptReadError::SnapshotGet)
    );
    assert_eq!(
        get_owns_status(Err(ConceptReadError::SnapshotGet), Ok(ordered), unordered),
        Err(ConceptReadError::SnapshotGet)
    );

    let plays = Plays { player: person, role: RoleType { id: 6 } };
    assert_eq!(get_plays_status(Ok(None)), Ok(DefinableStatus::DoesNotExist));
    assert_eq!(get_plays_status(Ok(Some(plays))), Ok(DefinableStatus::ExistsSame(Some(plays))));
    assert_eq!(get_plays_status(Err(ConceptReadError::SnapshotGet)), Err(ConceptReadError::SnapshotGet));
}

#[test]
fn errors_carry_component_prefix_and_number() {
    let variable = Variable::new(0);
    let insert = ExecutableCompilationError::InsertExecutableCompilation {
        source: WriteCompilationError::VariableWithoutKind { variable },
    };
    let delete = ExecutableCompilationError::DeleteExecutableCompilation {
        source: WriteCompilationError::DeletedThingWasNotInInput { variable },
    };
    let fetch = ExecutableCompilationError::FetchCompilation {
        source: FetchCompilationError::VariableNotAvailable { variable },
    };
    assert_eq!(insert.component(), "Query executable");
    assert_eq!(insert.prefix(), "QEE");
    assert_eq!((insert.code_number(), delete.code_number(), fetch.code_number()), (1, 2, 3));
    assert_eq!(insert.description(), "Error compiling insert clause into executable.");
    assert_eq!(delete.description(), "Error compiling delete clause into executable.");
    assert_eq!(fetch.description(), "Error compiling fetch clause into executable.");

    let query_errors = [
        (QueryError::ParseError { query: "match".to_string() }, 1),
        (QueryError::Define, 2),
        (QueryError::Redefine, 3),
        (QueryError::Undefine, 4),
        (QueryError::FunctionDefinition, 5),
        (QueryError::Annotation, 8),
        (QueryError::ExecutableCompilation { source: insert }, 9),
        (QueryError::WriteCompilation { source: WriteCompilationError::ThingInsertedTwice { variable } }, 10),
        (QueryError::ExpressionCompilation, 11),
        (QueryError::Pipeline, 12),
        (QueryError::WritePipelineExecution, 13),
        (QueryError::ReadPipelineExecution, 14),
        (QueryError::QueryExecutionClosedEarly, 15),
    ];
    for (error, number) in query_errors {
        assert_eq!(error.code_number(), number);
        assert_eq!(error.prefix(), "QEX");
        assert_eq!(error.component(), "Query execution");
    }

    let text = || "fun f".to_string();
    let function_errors = [
        FunctionRepresentationError::FunctionArgumentUnused { argument_variable: text(), declaration: text() },
        FunctionRepresentationError::StreamReturnVariableUnavailable {
            return_variable: text(),
            declaration: text(),
        },
        FunctionRepresentationError::SingleReturnVariableUnavailable {
            return_variable: text(),
            declaration: text(),
        },
        FunctionRepresentationError::BlockDefinition { declaration: text() },
        FunctionRepresentationError::ReturnReduction { declaration: text() },
        FunctionRepresentationError::IllegalFetch { declaration: text() },
        FunctionRepresentationError::IllegalStages { declaration: text() },
        FunctionRepresentationError::InconsistentReturn { signature: text(), return_: text() },
        FunctionRepresentationError::IllegalKeywordAsIdentifier { identifier: text() },
    ];
    for (index, error) in function_errors.iter().enumerate() {
        assert_eq!(error.code_number() as usize, index + 1);
        assert_eq!(error.prefix(), "FNR");
        assert_eq!(error.component(), "Function representation");
    }

    let get = SnapshotGetError { code: 2 };
    let iterate = SnapshotIteratorError { code: 3 };
    assert_eq!(
        FunctionReadError::FunctionRetrieval { source: get }.source(),
        Some(FunctionReadErrorSource::Get(get))
    );
    assert_eq!(
        FunctionReadError::FunctionsScan { source: iterate }.source(),
        Some(FunctionReadErrorSource::Iterate(iterate))
    );
    assert_eq!(FunctionReadError::FunctionNotFound { function_id: FunctionID::Preamble(0) }.source(), None);
}
