use query_pipeline::concept::{AttributeType, EntityType, ObjectType, RelationType, RoleType, Type};
use query_pipeline::id_map::IdMap;
use query_pipeline::links_executor::{
    compare_by_player_then_relation, create_links_filter_relations_players_roles, min_max_types, CheckInstruction,
    Checker, ExecutionContext, LinksExecutor, LinksExtractor, LinksInstruction, LinksToTuple,
};
use query_pipeline::pattern::Links;
use query_pipeline::thing::{
    Bounds, ConceptReadError, Entity, Link, LinkResult, Object, Relation, RolePlayer, Thing, ThingManager,
};
use query_pipeline::tuple::{
    ExecutorVariable, MaybeOwnedRow, TernaryIterateMode, Tuple, TupleIterator, TuplePositions, VariableMode,
    VariableModes, VariableValue,
};
use query_pipeline::variable::{Variable, VariablePosition};

const MARRIAGE: RelationType = RelationType { id: 10 };
const FRIENDSHIP: RelationType = RelationType { id: 11 };
const PERSON: EntityType = EntityType { id: 1 };
const DOG: EntityType = EntityType { id: 2 };
const SPOUSE: RoleType = RoleType { id: 20 };
const FRIEND: RoleType = RoleType { id: 21 };

fn relation_var() -> ExecutorVariable {
    ExecutorVariable::RowPosition(VariablePosition::new(0))
}

fn player_var() -> ExecutorVariable {
    ExecutorVariable::RowPosition(VariablePosition::new(1))
}

fn role_var() -> ExecutorVariable {
    ExecutorVariable::RowPosition(VariablePosition::new(2))
}

fn person(id: u64) -> Object {
    Object::Entity(Entity { type_: PERSON, id })
}

fn dog(id: u64) -> Object {
    Object::Entity(Entity { type_: DOG, id })
}

fn marriage(id: u64) -> Relation {
    Relation { type_: MARRIAGE, id }
}

fn friendship(id: u64) -> Relation {
    Relation { type_: FRIENDSHIP, id }
}

fn link(relation: Relation, player: Object, role_type: RoleType) -> Link {
    (relation, RolePlayer { player, role_type }, 1)
}

fn type_map(entries: Vec<(Type, Vec<Type>)>) -> IdMap<Type, Vec<Type>> {
    let mut map = IdMap::new();
    for (key, value) in entries {
        map.insert(key, value);
    }
    map
}

fn instruction(checks: Vec<CheckInstruction>) -> LinksInstruction {
    LinksInstruction {
        links: Links { relation: relation_var(), player: player_var(), role_type: role_var() },
        relation_to_player_types: type_map(vec![
            (Type::Relation(MARRIAGE), vec![Type::Entity(PERSON)]),
            (Type::Relation(FRIENDSHIP), vec![Type::Entity(PERSON), Type::Entity(DOG)]),
        ]),
        player_types: vec![Type::Entity(DOG), Type::Entity(PERSON)],
        player_to_role_types: type_map(vec![
            (Type::Entity(PERSON), vec![Type::RoleType(SPOUSE), Type::RoleType(FRIEND)]),
            (Type::Entity(DOG), vec![Type::RoleType(FRIEND)]),
        ]),
        checks,
    }
}

fn modes(relation: VariableMode, player: VariableMode) -> VariableModes {
    let mut modes = VariableModes::new();
    modes.insert(relation_var(), relation);
    modes.insert(player_var(), player);
    modes.insert(role_var(), VariableMode::Output);
    modes
}

fn store() -> ThingManager {
    ThingManager {
        relations: vec![marriage(1), marriage(2), friendship(1)],
        links: vec![
            link(marriage(1), person(5), SPOUSE),
            link(marriage(1), person(7), SPOUSE),
            link(marriage(2), person(3), SPOUSE),
            link(marriage(2), person(6), SPOUSE),
            link(friendship(1), person(5), FRIEND),
            link(friendship(1), dog(1), FRIEND),
        ],
        attributes: vec![],
        ownerships: vec![],
        read_fault: None,
    }
}

fn relation_value(relation: Relation) -> VariableValue {
    VariableValue::Thing(Thing::Relation(relation))
}

fn player_value(player: Object) -> VariableValue {
    match player {
        Object::Entity(entity) => VariableValue::Thing(Thing::Entity(entity)),
        Object::Relation(relation) => VariableValue::Thing(Thing::Relation(relation)),
    }
}

fn role_value(role_type: RoleType) -> VariableValue {
    VariableValue::Type(Type::RoleType(role_type))
}

fn empty_row() -> MaybeOwnedRow {
    MaybeOwnedRow { row: vec![VariableValue::Empty, VariableValue::Empty, VariableValue::Empty] }
}

#[test]
fn mode_selection() {
    let output = modes(VariableMode::Output, VariableMode::Output);
    assert_eq!(
        TernaryIterateMode::new(relation_var(), player_var(), &output, relation_var()),
        TernaryIterateMode::Unbound
    );
    assert_eq!(
        TernaryIterateMode::new(relation_var(), player_var(), &output, role_var()),
        TernaryIterateMode::Unbound
    );
    assert_eq!(
        TernaryIterateMode::new(relation_var(), player_var(), &output, player_var()),
        TernaryIterateMode::UnboundInverted
    );
    let from = modes(VariableMode::Input, VariableMode::Output);
    assert_eq!(
        TernaryIterateMode::new(relation_var(), player_var(), &from, player_var()),
        TernaryIterateMode::BoundFrom
    );
    assert_eq!(
        TernaryIterateMode::new(relation_var(), player_var(), &from, relation_var()),
        TernaryIterateMode::BoundFrom
    );
    let both = modes(VariableMode::Input, VariableMode::Input);
    assert_eq!(
        TernaryIterateMode::new(relation_var(), player_var(), &both, role_var()),
        TernaryIterateMode::BoundFromBoundTo
    );
    assert!(!both.all_inputs());
    let mut all = VariableModes::new();
    all.insert(relation_var(), VariableMode::Input);
    assert!(all.all_inputs());
}

#[test]
fn links_unbound_inverted_single_type_with_one_instance() {
    let relation = marriage(1);
    let thing_manager = ThingManager {
        relations: vec![relation],
        links: vec![link(relation, person(5), SPOUSE)],
        attributes: vec![],
        ownerships: vec![],
        read_fault: None,
    };
    let links = LinksInstruction {
        links: Links { relation: relation_var(), player: player_var(), role_type: role_var() },
        relation_to_player_types: type_map(vec![(Type::Relation(MARRIAGE), vec![Type::Entity(PERSON)])]),
        player_types: vec![Type::Entity(PERSON)],
        player_to_role_types: type_map(vec![(Type::Entity(PERSON), vec![Type::RoleType(SPOUSE)])]),
        checks: vec![],
    };
    let executor =
        LinksExecutor::new(links, modes(VariableMode::Output, VariableMode::Output), player_var(), &thing_manager)
            .unwrap();
    assert_eq!(executor.iterate_mode, TernaryIterateMode::UnboundInverted);
    assert_eq!(executor.relation_cache, Some(vec![relation]));
    assert_eq!(
        executor.tuple_positions,
        TuplePositions::Triple(Some(player_var()), Some(relation_var()), Some(role_var()))
    );
    assert_eq!(executor.relation_type_range, Bounds { min: MARRIAGE, max: MARRIAGE });
    assert_eq!(
        executor.player_type_range,
        Bounds { min: ObjectType::Entity(PERSON), max: ObjectType::Entity(PERSON) }
    );
    let context = ExecutionContext { thing_manager };
    let iterator = executor.get_iterator(&context, &empty_row()).unwrap();
    assert!(matches!(iterator, TupleIterator::LinksUnboundedInvertedSingle(_)));
    assert_eq!(
        iterator.into_tuples(),
        vec![Ok(Tuple::Triple(player_value(person(5)), relation_value(relation), role_value(SPOUSE)))]
    );
}

#[test]
fn cache_is_kept_in_the_inverted_mode_only() {
    let thing_manager = store();
    for (sort_by, relation_mode, expected) in [
        (relation_var(), VariableMode::Output, TernaryIterateMode::Unbound),
        (player_var(), VariableMode::Output, TernaryIterateMode::UnboundInverted),
        (player_var(), VariableMode::Input, TernaryIterateMode::BoundFrom),
    ] {
        let executor = LinksExecutor::new(
            instruction(vec![]),
            modes(relation_mode, VariableMode::Output),
            sort_by,
            &thing_manager,
        )
        .unwrap();
        assert_eq!(executor.iterate_mode, expected);
        assert_eq!(executor.relation_cache.is_some(), expected == TernaryIterateMode::UnboundInverted);
    }
    let executor = LinksExecutor::new(
        instruction(vec![]),
        modes(VariableMode::Input, VariableMode::Input),
        role_var(),
        &thing_manager,
    )
    .unwrap();
    assert_eq!(executor.iterate_mode, TernaryIterateMode::BoundFromBoundTo);
    assert!(executor.relation_cache.is_none());
}

#[test]
fn type_ranges_span_the_candidates() {
    let thing_manager = store();
    let executor = LinksExecutor::new(
        instruction(vec![]),
        modes(VariableMode::Output, VariableMode::Output),
        player_var(),
        &thing_manager,
    )
    .unwrap();
    assert_eq!(executor.relation_type_range, Bounds { min: MARRIAGE, max: FRIENDSHIP });
    assert_eq!(executor.player_type_range, Bounds { min: ObjectType::Entity(PERSON), max: ObjectType::Entity(DOG) });
    // The instances of every candidate type, type by type.
    assert_eq!(executor.relation_cache, Some(vec![marriage(1), marriage(2), friendship(1)]));
}

#[test]
fn least_and_greatest_type() {
    let types = vec![
        Type::Relation(RelationType { id: 3 }),
        Type::Entity(EntityType { id: 9 }),
        Type::RoleType(RoleType { id: 0 }),
        Type::Entity(EntityType { id: 4 }),
        Type::Attribute(AttributeType { id: 1 }),
    ];
    assert_eq!(min_max_types(&types), (Type::Entity(EntityType { id: 4 }), Type::RoleType(RoleType { id: 0 })));
    let one = vec![Type::Relation(RelationType { id: 3 })];
    assert_eq!(min_max_types(&one), (one[0], one[0]));
    let same = vec![Type::Entity(PERSON), Type::Entity(PERSON)];
    assert_eq!(min_max_types(&same), (Type::Entity(PERSON), Type::Entity(PERSON)));
}

#[test]
fn failed_read_fails_the_creation_in_the_inverted_mode_only() {
    let mut thing_manager = store();
    thing_manager.read_fault = Some(ConceptReadError::SnapshotIterate);
    let inverted = LinksExecutor::new(
        instruction(vec![]),
        modes(VariableMode::Output, VariableMode::Output),
        player_var(),
        &thing_manager,
    );
    assert_eq!(inverted.err(), Some(ConceptReadError::SnapshotIterate));
    let unbound = LinksExecutor::new(
        instruction(vec![]),
        modes(VariableMode::Output, VariableMode::Output),
        relation_var(),
        &thing_manager,
    )
    .unwrap();
    // In the streaming modes the failure is an item of the stream, and it is kept.
    let context = ExecutionContext { thing_manager };
    let iterator = unbound.get_iterator(&context, &empty_row()).unwrap();
    assert!(matches!(iterator, TupleIterator::LinksUnbounded(_)));
    assert_eq!(iterator.into_tuples(), vec![Err(ConceptReadError::SnapshotIterate)]);
}

#[test]
fn unbound_reads_by_relation_type_range() {
    let thing_manager = store();
    let executor = LinksExecutor::new(
        instruction(vec![]),
        modes(VariableMode::Output, VariableMode::Output),
        relation_var(),
        &thing_manager,
    )
    .unwrap();
    assert_eq!(
        executor.tuple_positions,
        TuplePositions::Triple(Some(relation_var()), Some(player_var()), Some(role_var()))
    );
    let context = ExecutionContext { thing_manager };
    let tuples = executor.get_iterator(&context, &empty_row()).unwrap().into_tuples();
    let expected: Vec<Result<Tuple, ConceptReadError>> = store()
        .links
        .iter()
        .map(|(relation, role_player, _)| {
            Ok(Tuple::Triple(
                relation_value(*relation),
                player_value(role_player.player),
                role_value(role_player.role_type),
            ))
        })
        .collect();
    assert_eq!(tuples, expected);
}

#[test]
fn unbound_inverted_merges_by_player_then_relation() {
    let thing_manager = store();
    let executor = LinksExecutor::new(
        instruction(vec![]),
        modes(VariableMode::Output, VariableMode::Output),
        player_var(),
        &thing_manager,
    )
    .unwrap();
    let context = ExecutionContext { thing_manager };
    let iterator = executor.get_iterator(&context, &empty_row()).unwrap();
    assert!(matches!(iterator, TupleIterator::LinksUnboundedInvertedMerged(_)));
    let expected = vec![
        (person(3), marriage(2), SPOUSE),
        (person(5), marriage(1), SPOUSE),
        (person(5), friendship(1), FRIEND),
        (person(6), marriage(2), SPOUSE),
        (person(7), marriage(1), SPOUSE),
        (dog(1), friendship(1), FRIEND),
    ];
    let expected: Vec<Result<Tuple, ConceptReadError>> = expected
        .into_iter()
        .map(|(player, relation, role)| {
            Ok(Tuple::Triple(player_value(player), relation_value(relation), role_value(role)))
        })
        .collect();
    assert_eq!(iterator.into_tuples(), expected);
}

#[test]
fn bound_relation_reads_the_links_of_the_relation_of_the_row() {
    let thing_manager = store();
    let executor = LinksExecutor::new(
        instruction(vec![]),
        modes(VariableMode::Input, VariableMode::Output),
        player_var(),
        &thing_manager,
    )
    .unwrap();
    let context = ExecutionContext { thing_manager };
    let row = MaybeOwnedRow { row: vec![relation_value(marriage(2)), VariableValue::Empty, VariableValue::Empty] };
    let iterator = executor.get_iterator(&context, &row).unwrap();
    assert!(matches!(iterator, TupleIterator::LinksBoundedRelation(_)));
    assert_eq!(
        iterator.into_tuples(),
        vec![
            Ok(Tuple::Triple(player_value(person(3)), relation_value(marriage(2)), role_value(SPOUSE))),
            Ok(Tuple::Triple(player_value(person(6)), relation_value(marriage(2)), role_value(SPOUSE))),
        ]
    );
}

#[test]
fn bound_relation_and_player_reads_their_links() {
    let thing_manager = store();
    let executor = LinksExecutor::new(
        instruction(vec![]),
        modes(VariableMode::Input, VariableMode::Input),
        role_var(),
        &thing_manager,
    )
    .unwrap();
    assert_eq!(
        executor.tuple_positions,
        TuplePositions::Triple(Some(role_var()), Some(relation_var()), Some(player_var()))
    );
    let context = ExecutionContext { thing_manager };
    let row = MaybeOwnedRow {
        row: vec![relation_value(friendship(1)), player_value(person(5)), VariableValue::Empty],
    };
    let iterator = executor.get_iterator(&context, &row).unwrap();
    assert!(matches!(iterator, TupleIterator::LinksBoundedRelationPlayer(_)));
    assert_eq!(
        iterator.into_tuples(),
        vec![Ok(Tuple::Triple(role_value(FRIEND), relation_value(friendship(1)), player_value(person(5))))]
    );
}

#[test]
fn filter_by_types() {
    let filter = create_links_filter_relations_players_roles(
        type_map(vec![(Type::Relation(MARRIAGE), vec![Type::Entity(PERSON)])]),
        type_map(vec![(Type::Entity(PERSON), vec![Type::RoleType(SPOUSE)])]),
    );
    assert_eq!(filter.apply(&Ok(link(marriage(1), person(1), SPOUSE))), Ok(true));
    // The relation type is no candidate.
    assert_eq!(filter.apply(&Ok(link(friendship(1), person(1), SPOUSE))), Ok(false));
    // The player type is none of the relation type's player types.
    assert_eq!(filter.apply(&Ok(link(marriage(1), dog(1), SPOUSE))), Ok(false));
    // The role type is none of the player type's role types.
    assert_eq!(filter.apply(&Ok(link(marriage(1), person(1), FRIEND))), Ok(false));
    assert_eq!(filter.apply(&Err(ConceptReadError::SnapshotGet)), Err(ConceptReadError::SnapshotGet));
}

fn executor_with_checks(checks: Vec<CheckInstruction>, thing_manager: &ThingManager) -> LinksExecutor {
    LinksExecutor::new(
        instruction(checks),
        modes(VariableMode::Output, VariableMode::Output),
        relation_var(),
        thing_manager,
    )
    .unwrap()
}

#[test]
fn checks_drop_only_what_does_not_hold() {
    let thing_manager = store();
    let input = ExecutorVariable::RowPosition(VariablePosition::new(3));
    let row = MaybeOwnedRow {
        row: vec![VariableValue::Empty, VariableValue::Empty, VariableValue::Empty, player_value(person(5))],
    };
    let items: Vec<LinkResult> = vec![
        Ok(link(marriage(1), person(5), SPOUSE)),
        Err(ConceptReadError::SnapshotGet),
        Ok(link(marriage(1), person(7), SPOUSE)),
        Ok(link(friendship(1), person(5), FRIEND)),
        Ok(link(friendship(1), person(5), SPOUSE)),
    ];

    // The player must be the thing of the row.
    let executor = executor_with_checks(vec![CheckInstruction::Is { lhs: player_var(), rhs: input }], &thing_manager);
    let context = ExecutionContext { thing_manager: store() };
    assert_eq!(
        executor.tuples_of(&context, &row, items.clone(), LinksToTuple::RelationPlayerRole),
        vec![
            Ok(Tuple::Triple(relation_value(marriage(1)), player_value(person(5)), role_value(SPOUSE))),
            Err(ConceptReadError::SnapshotGet),
            Ok(Tuple::Triple(relation_value(friendship(1)), player_value(person(5)), role_value(FRIEND))),
            // The filter by types does not tie the role to the relation.
            Ok(Tuple::Triple(relation_value(friendship(1)), player_value(person(5)), role_value(SPOUSE))),
        ]
    );

    // The role must be one of the listed types, and the link must be stored.
    let executor = executor_with_checks(
        vec![
            CheckInstruction::TypeList { type_var: role_var(), types: vec![Type::RoleType(FRIEND)] },
            CheckInstruction::Links { relation: relation_var(), player: input, role: role_var() },
        ],
        &thing_manager,
    );
    assert_eq!(
        executor.tuples_of(&context, &row, items.clone(), LinksToTuple::RoleRelationPlayer),
        vec![
            Err(ConceptReadError::SnapshotGet),
            Ok(Tuple::Triple(role_value(FRIEND), relation_value(friendship(1)), player_value(person(5)))),
        ]
    );

    // A check that cannot be read lets the item through.
    let mut failing = store();
    failing.read_fault = Some(ConceptReadError::SnapshotIterate);
    let failing_context = ExecutionContext { thing_manager: failing };
    assert_eq!(
        executor.tuples_of(&failing_context, &row, items, LinksToTuple::PlayerRelationRole),
        vec![
            Err(ConceptReadError::SnapshotGet),
            Ok(Tuple::Triple(player_value(person(5)), relation_value(friendship(1)), role_value(FRIEND))),
        ]
    );
}

#[test]
fn checker_reads_link_parts_and_row() {
    let mut extractors = IdMap::new();
    extractors.insert(relation_var(), LinksExtractor::Relation);
    let checker = Checker::new(vec![], extractors);
    let row = MaybeOwnedRow { row: vec![VariableValue::Empty, role_value(FRIEND)] };
    let item = link(marriage(1), person(5), SPOUSE);
    assert_eq!(checker.value(&row, &item, relation_var()), relation_value(marriage(1)));
    assert_eq!(checker.value(&row, &item, player_var()), role_value(FRIEND));
    assert_eq!(checker.value(&row, &item, role_var()), VariableValue::Empty);
    assert_eq!(
        checker.value(&row, &item, ExecutorVariable::Internal(Variable::new(0))),
        VariableValue::Empty
    );
    let context = ExecutionContext { thing_manager: store() };
    assert_eq!(checker.check(&context, &row, &Ok(item)), Ok(true));
    assert_eq!(checker.check(&context, &row, &Err(ConceptReadError::SnapshotGet)), Ok(true));
}

#[test]
fn order_by_player_then_relation() {
    let first: LinkResult = Ok(link(marriage(2), person(1), SPOUSE));
    let second: LinkResult = Ok(link(marriage(1), person(2), SPOUSE));
    let third: LinkResult = Ok(link(marriage(2), person(2), SPOUSE));
    let same_as_third: LinkResult = Ok((marriage(2), RolePlayer { player: person(2), role_type: FRIEND }, 7));
    let relation_player: LinkResult = Ok(link(marriage(1), Object::Relation(friendship(0)), FRIEND));
    let failed: LinkResult = Err(ConceptReadError::SnapshotGet);
    assert!(compare_by_player_then_relation(&first, &second));
    assert!(!compare_by_player_then_relation(&second, &first));
    assert!(compare_by_player_then_relation(&second, &third));
    assert!(!compare_by_player_then_relation(&third, &second));
    assert!(!compare_by_player_then_relation(&third, &same_as_third));
    assert!(!compare_by_player_then_relation(&third, &third));
    // Entities come before relations.
    assert!(compare_by_player_then_relation(&third, &relation_player));
    assert!(!compare_by_player_then_relation(&relation_player, &first));
    // A failed read comes before nothing, and nothing before it.
    assert!(!compare_by_player_then_relation(&failed, &first));
    assert!(!compare_by_player_then_relation(&first, &failed));
    assert!(!compare_by_player_then_relation(&failed, &failed));
}

#[test]
fn reads_of_the_thing_manager() {
    let thing_manager = store();
    assert_eq!(thing_manager.get_relations_in(MARRIAGE), vec![Ok(marriage(1)), Ok(marriage(2))]);
    assert_eq!(thing_manager.get_relations_in(RelationType { id: 99 }), vec![]);
    assert_eq!(
        thing_manager.get_links_by_relation_type_range(&Bounds { min: FRIENDSHIP, max: FRIENDSHIP }),
        vec![Ok(link(friendship(1), person(5), FRIEND)), Ok(link(friendship(1), dog(1), FRIEND))]
    );
    assert_eq!(
        thing_manager.get_links_by_relation_and_player_type_range(
            friendship(1),
            &Bounds { min: ObjectType::Entity(DOG), max: ObjectType::Entity(DOG) }
        ),
        vec![Ok(link(friendship(1), dog(1), FRIEND))]
    );
    assert_eq!(
        thing_manager.get_links_by_relation_and_player(marriage(1), person(7)),
        vec![Ok(link(marriage(1), person(7), SPOUSE))]
    );
    assert_eq!(thing_manager.has_role_player(marriage(1), person(7), SPOUSE), Ok(true));
    assert_eq!(thing_manager.has_role_player(marriage(1), person(7), FRIEND), Ok(false));
    let mut failing = store();
    failing.read_fault = Some(ConceptReadError::SnapshotGet);
    assert_eq!(failing.get_relations_in(MARRIAGE), vec![Err(ConceptReadError::SnapshotGet)]);
    assert_eq!(failing.has_role_player(marriage(1), person(7), SPOUSE), Err(ConceptReadError::SnapshotGet));
}

fn sorted_store() -> ThingManager {
    let mut links = Vec::new();
    for relation in [marriage(1), marriage(2), marriage(5), friendship(1), friendship(3)] {
        for player in [person(2), person(4), person(9), dog(1), dog(3)] {
            if (relation.id + object_number(player)) % 3 != 0 {
                let role = if relation.type_ == MARRIAGE { SPOUSE } else { FRIEND };
                if relation.type_ == FRIENDSHIP || matches!(player, Object::Entity(Entity { type_: PERSON, .. })) {
                    links.push(link(relation, player, role));
                }
            }
        }
    }
    ThingManager {
        relations: vec![marriage(1), marriage(2), marriage(5), friendship(1), friendship(3)],
        links,
        attributes: vec![],
        ownerships: vec![],
        read_fault: None,
    }
}

fn object_number(object: Object) -> u64 {
    match object {
        Object::Entity(entity) => entity.id,
        Object::Relation(relation) => relation.id,
    }
}

fn first_two(tuples: Vec<Result<Tuple, ConceptReadError>>) -> Vec<(VariableValue, VariableValue)> {
    tuples
        .into_iter()
        .map(|tuple| match tuple {
            Ok(Tuple::Triple(first, second, _)) => (first, second),
            Err(error) => panic!("no read fails here: {error:?}"),
        })
        .collect()
}

fn relation_key(value: VariableValue) -> (u16, u64) {
    match value {
        VariableValue::Thing(Thing::Relation(relation)) => (relation.type_.id, relation.id),
        other => panic!("a relation stands here, not {other:?}"),
    }
}

fn player_key(value: VariableValue) -> (u8, u16, u64) {
    match value {
        VariableValue::Thing(Thing::Entity(entity)) => (0, entity.type_.id, entity.id),
        VariableValue::Thing(Thing::Relation(relation)) => (1, relation.type_.id, relation.id),
        other => panic!("an object stands here, not {other:?}"),
    }
}

#[test]
fn answers_come_in_the_order_of_the_mode() {
    let thing_manager = sorted_store();
    let total = thing_manager.links.len();

    let unbound = LinksExecutor::new(
        instruction(vec![]),
        modes(VariableMode::Output, VariableMode::Output),
        relation_var(),
        &thing_manager,
    )
    .unwrap();
    let inverted = LinksExecutor::new(
        instruction(vec![]),
        modes(VariableMode::Output, VariableMode::Output),
        player_var(),
        &thing_manager,
    )
    .unwrap();
    let bound = LinksExecutor::new(
        instruction(vec![]),
        modes(VariableMode::Input, VariableMode::Output),
        player_var(),
        &thing_manager,
    )
    .unwrap();
    let context = ExecutionContext { thing_manager };

    // Sorted by relation.
    let answers = first_two(unbound.get_iterator(&context, &empty_row()).unwrap().into_tuples());
    assert_eq!(answers.len(), total);
    assert!(answers.windows(2).all(|pair| relation_key(pair[0].0) <= relation_key(pair[1].0)));

    // Sorted by player, then by relation.
    let iterator = inverted.get_iterator(&context, &empty_row()).unwrap();
    assert!(matches!(iterator, TupleIterator::LinksUnboundedInvertedMerged(_)));
    let answers = first_two(iterator.into_tuples());
    assert_eq!(answers.len(), total);
    assert!(answers.windows(2).all(|pair| {
        (player_key(pair[0].0), relation_key(pair[0].1)) <= (player_key(pair[1].0), relation_key(pair[1].1))
    }));
    assert!(answers.windows(2).any(|pair| relation_key(pair[0].1) > relation_key(pair[1].1)));

    // With the relation bound, sorted by player.
    let row = MaybeOwnedRow { row: vec![relation_value(friendship(1)), VariableValue::Empty, VariableValue::Empty] };
    let answers = first_two(bound.get_iterator(&context, &row).unwrap().into_tuples());
    assert_eq!(answers.len(), 4);
    assert!(answers.windows(2).all(|pair| player_key(pair[0].0) < player_key(pair[1].0)));
    assert!(answers.iter().all(|answer| answer.1 == relation_value(friendship(1))));
}
