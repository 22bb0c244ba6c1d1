use query_pipeline::concept::{EntityType, RelationType};
use query_pipeline::encoding::{DefinitionKey, ValueType};
use query_pipeline::executable_id::{next_executable_id, ExecutableIds};
use query_pipeline::id_map::IdMap;
use query_pipeline::id_set::IdSet;
use query_pipeline::parameters::{ParameterRegistry, Value, THING_VERTEX_MAX_LENGTH};
use query_pipeline::pattern::{Constraint, Has, Isa, ParameterID, Reducer};
use query_pipeline::reduce::ReduceInstruction;
use query_pipeline::registry::{RepresentationError, VariableCategorySource, VariableRegistry};
use query_pipeline::variable::{Variable, VariableCategory, VariableOptionality, VariablePosition};

const CATEGORIES: [VariableCategory; 8] = [
    VariableCategory::Entity,
    VariableCategory::Relation,
    VariableCategory::Attribute,
    VariableCategory::Value,
    VariableCategory::Type,
    VariableCategory::Role,
    VariableCategory::Thing,
    VariableCategory::Object,
];

#[test]
fn executable_ids_increase() {
    let mut ids = ExecutableIds::new();
    let mut previous = next_executable_id(&mut ids);
    assert_eq!(previous, 0);
    for _ in 0..100 {
        let next = next_executable_id(&mut ids);
        assert!(next > previous);
        assert_eq!(next, previous + 1);
        previous = next;
    }
    assert_eq!(ids.peek(), 101);
}

#[test]
fn executable_ids_start_again_after_the_largest() {
    let mut ids = ExecutableIds::starting_at(u64::MAX - 1);
    assert_eq!(next_executable_id(&mut ids), u64::MAX - 1);
    assert_eq!(next_executable_id(&mut ids), u64::MAX);
    assert_eq!(next_executable_id(&mut ids), 0);
    assert_eq!(next_executable_id(&mut ids), 1);
}

#[test]
fn variable_category_conflict() {
    let mut registry = VariableRegistry::new();
    let a = registry.register_variable_named("a".to_string());
    let t = registry.register_anonymous_variable();
    let source = Constraint::Isa(Isa { thing: a, type_: t });
    assert!(registry.set_assigned_value_variable_category(a, VariableCategory::Attribute, source).is_ok());
    let result = registry.set_assigned_value_variable_category(a, VariableCategory::Entity, source);
    match result {
        Err(RepresentationError::VariableCategoryMismatch { variable_name, category_1, category_2 }) => {
            assert_eq!(variable_name, "a");
            assert_eq!(category_1, VariableCategory::Entity);
            assert_eq!(category_2, VariableCategory::Attribute);
        }
        Ok(()) => panic!("an attribute is no entity"),
    }
    // The registry is as it was.
    assert_eq!(registry.get_variable_category(a), Some(VariableCategory::Attribute));
    assert_eq!(registry.variable_categories(), vec![(a, VariableCategory::Attribute)]);
    assert_eq!(registry.get_variable_name(a), Some(&"a".to_string()));
    assert_eq!(registry.get_variable_category(t), None);
}

#[test]
fn conflict_of_a_variable_without_a_name() {
    let mut registry = VariableRegistry::new();
    let anonymous = registry.register_anonymous_variable();
    registry
        .set_variable_category(anonymous, VariableCategory::Value, VariableCategorySource::Argument)
        .unwrap();
    match registry.set_variable_category(anonymous, VariableCategory::Thing, VariableCategorySource::Argument) {
        Err(RepresentationError::VariableCategoryMismatch { variable_name, category_1, category_2 }) => {
            assert_eq!(variable_name, "$<INTERNAL>");
            assert_eq!(category_1, VariableCategory::Thing);
            assert_eq!(category_2, VariableCategory::Value);
        }
        Ok(()) => panic!("a value is no thing"),
    }
}

#[test]
fn category_narrowing() {
    let mut registry = VariableRegistry::new();
    let a = registry.register_variable_named("a".to_string());
    let reduce = VariableCategorySource::Reduce(Reducer::Count);
    registry.set_variable_category(a, VariableCategory::Thing, VariableCategorySource::Argument).unwrap();
    assert_eq!(registry.get_variable_category(a), Some(VariableCategory::Thing));
    registry.set_variable_category(a, VariableCategory::Object, reduce).unwrap();
    assert_eq!(registry.get_variable_category(a), Some(VariableCategory::Object));
    // A wider category changes nothing.
    registry.set_variable_category(a, VariableCategory::Thing, VariableCategorySource::Argument).unwrap();
    assert_eq!(registry.get_variable_category(a), Some(VariableCategory::Object));
    registry.set_variable_category(a, VariableCategory::Relation, reduce).unwrap();
    assert_eq!(registry.get_variable_category(a), Some(VariableCategory::Relation));
    assert!(registry.set_variable_category(a, VariableCategory::Entity, reduce).is_err());
    assert_eq!(registry.get_variable_category(a), Some(VariableCategory::Relation));
}

#[test]
fn narrowest_category_of_every_pair() {
    let within = |narrow: VariableCategory, wide: VariableCategory| {
        narrow == wide
            || matches!(
                (narrow, wide),
                (VariableCategory::Object, VariableCategory::Thing)
                    | (VariableCategory::Attribute, VariableCategory::Thing)
                    | (VariableCategory::Entity, VariableCategory::Thing)
                    | (VariableCategory::Relation, VariableCategory::Thing)
                    | (VariableCategory::Entity, VariableCategory::Object)
                    | (VariableCategory::Relation, VariableCategory::Object)
                    | (VariableCategory::Role, VariableCategory::Type)
            )
    };
    for left in CATEGORIES {
        for right in CATEGORIES {
            let expected = if within(left, right) {
                Some(left)
            } else if within(right, left) {
                Some(right)
            } else {
                None
            };
            assert_eq!(left.narrowest(right), expected);
            assert_eq!(left.narrowest(right), right.narrowest(left));
            assert_eq!(left.is_within(right), within(left, right));
        }
        assert_eq!(left.narrowest(left), Some(left));
    }
    assert_eq!(VariableCategory::Thing.narrowest(VariableCategory::Entity), Some(VariableCategory::Entity));
    assert_eq!(VariableCategory::Attribute.narrowest(VariableCategory::Entity), None);
    assert_eq!(VariableCategory::Value.narrowest(VariableCategory::Thing), None);
    assert_eq!(VariableCategory::Role.narrowest(VariableCategory::Type), Some(VariableCategory::Role));
    assert_eq!(VariableCategory::Object.name(), "object");
    assert_eq!(VariableCategory::Role.name(), "role");
}

#[test]
fn variables_are_allocated_in_order() {
    let mut registry = VariableRegistry::new();
    let a = registry.register_variable_named("a".to_string());
    let b = registry.register_anonymous_variable();
    let c = registry.register_function_argument("c", VariableCategory::Value);
    let d = registry.register_reduce_output_variable(
        "d".to_string(),
        VariableCategory::Value,
        true,
        Reducer::Sum(a),
    );
    let e = registry.register_reduce_output_variable(
        "e".to_string(),
        VariableCategory::Attribute,
        false,
        Reducer::Max(a),
    );
    assert_eq!(a, Variable { id: 0, anonymous: false });
    assert_eq!(b, Variable { id: 1, anonymous: true });
    assert_eq!(c, Variable::new(2));
    assert_eq!(d, Variable::new(3));
    assert_eq!(e, Variable::new(4));
    assert!(registry.has_variable_as_named(&a));
    assert!(!registry.has_variable_as_named(&b));
    assert_eq!(registry.get_variable_name(b), None);
    assert_eq!(registry.get_variable_name(c), Some(&"c".to_string()));
    assert_eq!(registry.variable_names().keys(), vec![a, c, d, e]);
    assert_eq!(registry.variable_names().len(), 4);
    assert_eq!(registry.get_variable_category(c), Some(VariableCategory::Value));
    assert_eq!(registry.get_variable_category(e), Some(VariableCategory::Attribute));
    assert_eq!(registry.get_variable_optionality(c), None);
    assert_eq!(registry.get_variable_optionality(d), Some(VariableOptionality::Optional));
    assert!(registry.is_variable_optional(d));
    assert!(!registry.is_variable_optional(e));
    assert_eq!(registry.optional_variables(), vec![d]);
    registry.set_variable_is_optional(a, true);
    registry.set_variable_is_optional(d, false);
    assert_eq!(registry.optional_variables(), vec![a]);
    assert_eq!(registry.get_variable_optionality(d), None);
    assert_eq!(
        registry.variable_categories(),
        vec![(c, VariableCategory::Value), (d, VariableCategory::Value), (e, VariableCategory::Attribute)]
    );
}

#[test]
fn parameters_are_numbered_from_zero_for_each_kind() {
    let mut registry = ParameterRegistry::new();
    assert_eq!(registry.register_value(Value::Long(7)), ParameterID::Value(0));
    assert_eq!(registry.register_iid(vec![1, 2, 3]), ParameterID::Iid(0));
    assert_eq!(registry.register_value(Value::String("text".to_string())), ParameterID::Value(1));
    assert_eq!(registry.register_fetch_key("name".to_string()), ParameterID::FetchKey(0));
    assert_eq!(registry.register_fetch_key("age".to_string()), ParameterID::FetchKey(1));
    assert_eq!(registry.register_value(Value::Boolean(true)), ParameterID::Value(2));
    assert_eq!(registry.register_iid(vec![0; THING_VERTEX_MAX_LENGTH]), ParameterID::Iid(1));
    assert_eq!(registry.register_value(Value::Double(1.5f64.to_bits())), ParameterID::Value(3));

    assert_eq!(registry.value(ParameterID::Value(0)), Some(&Value::Long(7)));
    assert_eq!(registry.value(ParameterID::Value(1)), Some(&Value::String("text".to_string())));
    assert_eq!(registry.value_unchecked(ParameterID::Value(2)), &Value::Boolean(true));
    assert_eq!(registry.value(ParameterID::Value(3)), Some(&Value::Double(1.5f64.to_bits())));
    assert_eq!(registry.value(ParameterID::Value(4)), None);
    // An identifier of another kind finds nothing.
    assert_eq!(registry.value(ParameterID::Iid(0)), None);
    assert_eq!(registry.value(ParameterID::FetchKey(0)), None);
    assert_eq!(registry.iid(ParameterID::Iid(0)), Some(&vec![1, 2, 3]));
    assert_eq!(registry.iid(ParameterID::Iid(1)).map(|iid| iid.len()), Some(20));
    assert_eq!(registry.iid(ParameterID::Iid(2)), None);
    assert_eq!(registry.iid(ParameterID::Value(0)), None);
    assert_eq!(registry.fetch_key(ParameterID::FetchKey(1)), Some(&"age".to_string()));
    assert_eq!(registry.fetch_key(ParameterID::FetchKey(2)), None);
    assert_eq!(registry.fetch_key(ParameterID::Value(1)), None);
    assert_eq!(Value::String("text".to_string()).clone(), Value::String("text".to_string()));
}

#[test]
fn reduce_output_types() {
    let id = VariablePosition::new(3);
    let long = [
        ReduceInstruction::Count,
        ReduceInstruction::CountVar(id),
        ReduceInstruction::SumLong(id),
        ReduceInstruction::MaxLong(id),
        ReduceInstruction::MinLong(id),
    ];
    let double = [
        ReduceInstruction::SumDouble(id),
        ReduceInstruction::MaxDouble(id),
        ReduceInstruction::MinDouble(id),
        ReduceInstruction::MeanLong(id),
        ReduceInstruction::MeanDouble(id),
        ReduceInstruction::MedianLong(id),
        ReduceInstruction::MedianDouble(id),
        ReduceInstruction::StdLong(id),
        ReduceInstruction::StdDouble(id),
    ];
    for instruction in long {
        assert_eq!(instruction.output_type(), ValueType::Long);
    }
    for instruction in double {
        assert_eq!(instruction.output_type(), ValueType::Double);
        assert_eq!(instruction.id(), Some(id));
    }
    assert_eq!(ReduceInstruction::<VariablePosition>::Count.id(), None);
    assert_eq!(ReduceInstruction::CountVar(id).id(), Some(id));
}

#[test]
fn reduce_instruction_is_mapped_to_positions() {
    let a = Variable::new(0);
    let b = Variable::new(1);
    let mut mapping = IdMap::new();
    mapping.insert(a, VariablePosition::new(4));
    mapping.insert(b, VariablePosition::new(2));
    assert!(matches!(ReduceInstruction::<Variable>::Count.map(&mapping), ReduceInstruction::Count));
    assert!(matches!(
        ReduceInstruction::StdLong(b).map(&mapping),
        ReduceInstruction::StdLong(VariablePosition { position: 2 })
    ));
    assert!(matches!(
        ReduceInstruction::MedianDouble(a).map(&mapping),
        ReduceInstruction::MedianDouble(VariablePosition { position: 4 })
    ));
    assert!(matches!(
        ReduceInstruction::CountVar(a).map(&mapping),
        ReduceInstruction::CountVar(VariablePosition { position: 4 })
    ));
}

#[test]
fn id_map_keeps_the_order_of_insertion() {
    let mut map: IdMap<DefinitionKey, u32> = IdMap::new();
    let key = |id: u16| DefinitionKey { id };
    assert_eq!(map.insert(key(3), 30), None);
    assert_eq!(map.insert(key(1), 10), None);
    assert_eq!(map.insert(key(2), 20), None);
    assert_eq!(map.insert(key(1), 11), Some(10));
    assert_eq!(map.keys(), vec![key(3), key(1), key(2)]);
    assert_eq!(map.get(&key(1)), Some(&11));
    assert_eq!(map.len(), 3);
    assert!(map.contains_key(&key(2)));
    assert_eq!(map.remove(&key(3)), Some(30));
    assert_eq!(map.remove(&key(3)), None);
    assert_eq!(map.keys(), vec![key(1), key(2)]);
    assert_eq!(map.get(&key(3)), None);
    let copy = map.clone();
    assert_eq!(copy.keys(), map.keys());
    assert_eq!(copy.get(&key(2)), Some(&20));

    let mut set: IdSet<VariablePosition> = IdSet::new();
    assert!(set.insert(VariablePosition::new(2)));
    assert!(set.insert(VariablePosition::new(0)));
    assert!(!set.insert(VariablePosition::new(2)));
    assert_eq!(set.len(), 2);
    assert_eq!(set.to_vec(), vec![VariablePosition::new(2), VariablePosition::new(0)]);
    assert!(set.contains(&VariablePosition::new(0)));
    assert!(!set.contains(&VariablePosition::new(1)));
}

#[test]
fn constraint_variables() {
    let a = Variable::new(0);
    let b = Variable::new(1);
    assert_eq!(Constraint::Has(Has { owner: a, attribute: b }).variables(), vec![a, b]);
    assert_eq!(Constraint::Isa(Isa { thing: b, type_: a }).variables(), vec![b, a]);
    let _ = (EntityType { id: 0 }, RelationType { id: 0 });
}
