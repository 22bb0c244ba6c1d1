use query_pipeline::compile::{compile_pipeline, compile_stages_and_fetch, determine_tabling_requirements};
use query_pipeline::concept::{AttributeType, EntityType, Kind, Type};
use query_pipeline::encoding::DefinitionKey;
use query_pipeline::executable_id::ExecutableIds;
use query_pipeline::fetch::{AnnotatedFetch, FetchEntry, FetchSome, FetchSomeInstruction};
use query_pipeline::function::{
    compile_function, AnnotatedFunction, AnnotatedReturn, ExecutableFunctionRegistry, ExecutableReturn,
};
use query_pipeline::id_map::IdMap;
use query_pipeline::pattern::{Constraint, FunctionCall, FunctionID, Has, Isa, Links, ParameterID, Reducer};
use query_pipeline::pipeline::{
    compile_pipeline_stages, compile_stage, select_for_stage, stage_is_ready, ExecutableCompilationError,
    ExecutableStage, FetchCompilationError,
};
use query_pipeline::reduce::ReduceInstruction;
use query_pipeline::registry::VariableRegistry;
use query_pipeline::stage::{
    AnnotatedStage, AssignedReduction, Block, Conjunction, Limit, Offset, Reduce, Require, Select, Sort,
    SortVariable, TypeAnnotations,
};
use query_pipeline::variable::{Variable, VariablePosition};
use query_pipeline::write::WriteCompilationError;

fn block(constraints: Vec<Constraint>) -> Block {
    Block { conjunction: Conjunction { constraints } }
}

fn no_annotations() -> TypeAnnotations {
    TypeAnnotations { variable_types: IdMap::new() }
}

fn annotations(entries: Vec<(Variable, Vec<Type>)>) -> TypeAnnotations {
    let mut variable_types = IdMap::new();
    for (variable, types) in entries {
        variable_types.insert(variable, types);
    }
    TypeAnnotations { variable_types }
}

fn position_of(mapping: &IdMap<Variable, VariablePosition>, variable: Variable) -> Option<u32> {
    mapping.get(&variable).map(|position| position.position)
}

#[test]
fn single_stage_match_select() {
    let mut registry = VariableRegistry::new();
    let a = registry.register_variable_named("a".to_string());
    let b = registry.register_anonymous_variable();
    let c = registry.register_variable_named("c".to_string());
    let stages = vec![
        AnnotatedStage::Match {
            block: block(vec![Constraint::Links(Links { relation: a, player: b, role_type: c })]),
            block_annotations: no_annotations(),
        },
        AnnotatedStage::Select(Select { variables: vec![a, c] }),
    ];
    let mut ids = ExecutableIds::new();
    let (input, executables, fetch) = compile_stages_and_fetch(
        &registry,
        &ExecutableFunctionRegistry::empty(),
        &stages,
        &None,
        &vec![],
        &mut ids,
    )
    .unwrap();
    assert_eq!(input.len(), 0);
    assert!(fetch.is_none());
    assert_eq!(executables.len(), 2);
    assert!(matches!(executables[0], ExecutableStage::Match(_)));
    assert!(matches!(executables[1], ExecutableStage::Select(_)));
    let last = executables[1].output_row_mapping();
    assert_eq!(last.len(), 2);
    assert_eq!(position_of(&last, a), Some(0));
    assert_eq!(position_of(&last, c), Some(1));
    assert_eq!(position_of(&last, b), None);
    if let ExecutableStage::Select(select) = &executables[1] {
        assert_eq!(select.retained_positions.len(), 2);
        assert!(select.retained_positions.contains(&VariablePosition::new(0)));
        assert!(select.retained_positions.contains(&VariablePosition::new(1)));
    }
    assert_eq!(executables[0].executable_id(), 0);
    assert_eq!(executables[1].executable_id(), 1);
    assert_eq!(ids.peek(), 2);
}

#[test]
fn match_keeps_input_positions_and_appends_selected_block_variables() {
    let mut registry = VariableRegistry::new();
    let x = registry.register_variable_named("x".to_string());
    let y = registry.register_variable_named("y".to_string());
    let z = registry.register_variable_named("z".to_string());
    let mut input = IdMap::new();
    input.insert(x, VariablePosition::new(3));
    let stage = AnnotatedStage::Match {
        block: block(vec![
            Constraint::Has(Has { owner: x, attribute: z }),
            Constraint::Has(Has { owner: y, attribute: z }),
        ]),
        block_annotations: no_annotations(),
    };
    let mut ids = ExecutableIds::starting_at(7);
    let compiled = compile_stage(&input, &vec![y, z, x, y], &stage, &mut ids).unwrap();
    let mapping = compiled.output_row_mapping();
    assert_eq!(position_of(&mapping, x), Some(3));
    assert_eq!(position_of(&mapping, y), Some(4));
    assert_eq!(position_of(&mapping, z), Some(5));
    assert_eq!(mapping.len(), 3);
    assert_eq!(compiled.executable_id(), 7);
    assert_eq!(ids.peek(), 8);
}

#[test]
fn insert_then_limit() {
    let mut registry = VariableRegistry::new();
    let x = registry.register_variable_named("x".to_string());
    let y = registry.register_variable_named("y".to_string());
    let person = registry.register_anonymous_variable();
    let name = registry.register_anonymous_variable();
    let stages = vec![
        AnnotatedStage::Insert {
            block: block(vec![
                Constraint::Isa(Isa { thing: x, type_: person }),
                Constraint::Isa(Isa { thing: y, type_: name }),
                Constraint::Has(Has { owner: x, attribute: y }),
            ]),
            annotations: annotations(vec![
                (x, vec![Type::Entity(EntityType { id: 1 })]),
                (y, vec![Type::Attribute(AttributeType { id: 2 })]),
            ]),
        },
        AnnotatedStage::Limit(Limit { limit: 10 }),
    ];
    let mut ids = ExecutableIds::new();
    let (_, executables) =
        compile_pipeline_stages(&registry, &stages, &vec![], &vec![x, y], &mut ids).unwrap();
    assert_eq!(executables.len(), 2);
    match &executables[0] {
        ExecutableStage::Insert(insert) => {
            assert_eq!(insert.output_row_schema, vec![Some((x, Kind::Entity)), Some((y, Kind::Attribute))]);
        }
        _ => panic!("the first stage is an insert"),
    }
    match &executables[1] {
        ExecutableStage::Limit(limit) => assert_eq!(limit.limit, 10),
        _ => panic!("the second stage is a limit"),
    }
    let last = executables[1].output_row_mapping();
    assert_eq!(last.len(), 2);
    assert_eq!(position_of(&last, x), Some(0));
    assert_eq!(position_of(&last, y), Some(1));
}

#[test]
fn insert_errors() {
    let x = Variable::new(0);
    let y = Variable::new(1);
    let t = Variable::new_anonymous(2);
    let entity = vec![Type::Entity(EntityType { id: 1 })];
    let mut input = IdMap::new();
    input.insert(x, VariablePosition::new(0));
    let mut ids = ExecutableIds::new();

    // An input variable without a kind.
    let stage = AnnotatedStage::Insert { block: block(vec![]), annotations: no_annotations() };
    assert_eq!(
        compile_stage(&input, &vec![], &stage, &mut ids).err(),
        Some(ExecutableCompilationError::InsertExecutableCompilation {
            source: WriteCompilationError::VariableWithoutKind { variable: x }
        })
    );
    // Types of two kinds give no kind.
    let stage = AnnotatedStage::Insert {
        block: block(vec![]),
        annotations: annotations(vec![(
            x,
            vec![Type::Entity(EntityType { id: 1 }), Type::Attribute(AttributeType { id: 1 })],
        )]),
    };
    assert_eq!(
        compile_stage(&input, &vec![], &stage, &mut ids).err(),
        Some(ExecutableCompilationError::InsertExecutableCompilation {
            source: WriteCompilationError::VariableWithoutKind { variable: x }
        })
    );
    // An isa for an input variable.
    let stage = AnnotatedStage::Insert {
        block: block(vec![Constraint::Isa(Isa { thing: x, type_: t })]),
        annotations: annotations(vec![(x, entity.clone())]),
    };
    assert_eq!(
        compile_stage(&input, &vec![], &stage, &mut ids).err(),
        Some(ExecutableCompilationError::InsertExecutableCompilation {
            source: WriteCompilationError::IsaStatementForInputVariable { variable: x }
        })
    );
    // Two isa for one variable.
    let stage = AnnotatedStage::Insert {
        block: block(vec![
            Constraint::Isa(Isa { thing: y, type_: t }),
            Constraint::Isa(Isa { thing: y, type_: t }),
        ]),
        annotations: annotations(vec![(x, entity.clone()), (y, entity.clone())]),
    };
    assert_eq!(
        compile_stage(&input, &vec![], &stage, &mut ids).err(),
        Some(ExecutableCompilationError::InsertExecutableCompilation {
            source: WriteCompilationError::ThingInsertedTwice { variable: y }
        })
    );
    // A has of a thing that is neither input nor inserted.
    let stage = AnnotatedStage::Insert {
        block: block(vec![Constraint::Has(Has { owner: x, attribute: y })]),
        annotations: annotations(vec![(x, entity.clone())]),
    };
    assert_eq!(
        compile_stage(&input, &vec![], &stage, &mut ids).err(),
        Some(ExecutableCompilationError::InsertExecutableCompilation {
            source: WriteCompilationError::MissingExpectedInput { variable: y }
        })
    );
    // No identity is taken by a stage that fails.
    assert_eq!(ids.peek(), 0);
}

#[test]
fn delete_erases_deleted_variables() {
    let x = Variable::new(0);
    let y = Variable::new(1);
    let z = Variable::new(2);
    let mut input = IdMap::new();
    input.insert(x, VariablePosition::new(0));
    input.insert(y, VariablePosition::new(2));
    let mut ids = ExecutableIds::new();
    let stage = AnnotatedStage::Delete {
        block: block(vec![Constraint::Has(Has { owner: x, attribute: y })]),
        deleted_variables: vec![y],
        annotations: no_annotations(),
    };
    let compiled = compile_stage(&input, &vec![], &stage, &mut ids).unwrap();
    match &compiled {
        ExecutableStage::Delete(delete) => {
            assert_eq!(delete.output_row_schema, vec![Some(x), None, None]);
        }
        _ => panic!("a delete compiles to a delete"),
    }
    let mapping = compiled.output_row_mapping();
    assert_eq!(mapping.len(), 1);
    assert_eq!(position_of(&mapping, x), Some(0));

    let stage = AnnotatedStage::Delete {
        block: block(vec![]),
        deleted_variables: vec![z],
        annotations: no_annotations(),
    };
    assert_eq!(
        compile_stage(&input, &vec![], &stage, &mut ids).err(),
        Some(ExecutableCompilationError::DeleteExecutableCompilation {
            source: WriteCompilationError::DeletedThingWasNotInInput { variable: z }
        })
    );
    let stage = AnnotatedStage::Delete {
        block: block(vec![Constraint::Links(Links { relation: x, player: z, role_type: y })]),
        deleted_variables: vec![],
        annotations: no_annotations(),
    };
    assert_eq!(
        compile_stage(&input, &vec![], &stage, &mut ids).err(),
        Some(ExecutableCompilationError::DeleteExecutableCompilation {
            source: WriteCompilationError::MissingExpectedInput { variable: z }
        })
    );
}

#[test]
fn reduce_with_two_groups_and_one_count() {
    let g1 = Variable::new(0);
    let g2 = Variable::new(1);
    let count_out = Variable::new(2);
    let mut input = IdMap::new();
    input.insert(g2, VariablePosition::new(0));
    input.insert(g1, VariablePosition::new(5));
    let stage = AnnotatedStage::Reduce(
        Reduce {
            assigned_reductions: vec![AssignedReduction { assigned: count_out, reduction: Reducer::Count }],
            within_group: vec![g1, g2],
        },
        vec![ReduceInstruction::Count],
    );
    let mut ids = ExecutableIds::new();
    let compiled = compile_stage(&input, &vec![], &stage, &mut ids).unwrap();
    let mapping = compiled.output_row_mapping();
    assert_eq!(mapping.len(), 3);
    assert_eq!(position_of(&mapping, g1), Some(0));
    assert_eq!(position_of(&mapping, g2), Some(1));
    assert_eq!(position_of(&mapping, count_out), Some(2));
    match &compiled {
        ExecutableStage::Reduce(reduce) => {
            let rows = &reduce.reduce_rows_executable;
            assert_eq!(rows.reductions.len(), 1);
            assert!(matches!(rows.reductions[0], ReduceInstruction::Count));
            assert!(rows.reductions[0].id().is_none());
            assert_eq!(rows.input_group_positions, vec![VariablePosition::new(5), VariablePosition::new(0)]);
        }
        _ => panic!("a reduce compiles to a reduce"),
    }
}

#[test]
fn reduce_reads_the_positions_of_its_variables() {
    let g = Variable::new(0);
    let v = Variable::new(1);
    let sum = Variable::new(2);
    let mean = Variable::new(3);
    let mut input = IdMap::new();
    input.insert(g, VariablePosition::new(1));
    input.insert(v, VariablePosition::new(4));
    let stage = AnnotatedStage::Reduce(
        Reduce {
            assigned_reductions: vec![
                AssignedReduction { assigned: sum, reduction: Reducer::Sum(v) },
                AssignedReduction { assigned: mean, reduction: Reducer::Mean(v) },
            ],
            within_group: vec![g],
        },
        vec![ReduceInstruction::SumLong(v), ReduceInstruction::MeanDouble(v)],
    );
    let mut ids = ExecutableIds::new();
    let compiled = compile_stage(&input, &vec![], &stage, &mut ids).unwrap();
    let mapping = compiled.output_row_mapping();
    assert_eq!(position_of(&mapping, g), Some(0));
    assert_eq!(position_of(&mapping, sum), Some(1));
    assert_eq!(position_of(&mapping, mean), Some(2));
    assert_eq!(position_of(&mapping, v), None);
    if let ExecutableStage::Reduce(reduce) = &compiled {
        let reductions = &reduce.reduce_rows_executable.reductions;
        assert!(matches!(reductions[0], ReduceInstruction::SumLong(VariablePosition { position: 4 })));
        assert!(matches!(reductions[1], ReduceInstruction::MeanDouble(VariablePosition { position: 4 })));
    } else {
        panic!("a reduce compiles to a reduce");
    }
}

#[test]
fn identity_modifiers_keep_the_mapping() {
    let a = Variable::new(0);
    let b = Variable::new(1);
    let mut input = IdMap::new();
    input.insert(a, VariablePosition::new(2));
    input.insert(b, VariablePosition::new(0));
    let stages = vec![
        AnnotatedStage::Select(Select { variables: vec![b, a] }),
        AnnotatedStage::Sort(Sort { variables: vec![] }),
        AnnotatedStage::Offset(Offset { offset: 0 }),
        AnnotatedStage::Limit(Limit { limit: u64::MAX }),
        AnnotatedStage::Require(Require { variables: vec![] }),
    ];
    let mut ids = ExecutableIds::new();
    for stage in &stages {
        let compiled = compile_stage(&input, &vec![], stage, &mut ids).unwrap();
        let mapping = compiled.output_row_mapping();
        assert_eq!(mapping.len(), 2);
        assert_eq!(position_of(&mapping, a), Some(2));
        assert_eq!(position_of(&mapping, b), Some(0));
    }
}

#[test]
fn modifiers_hold_what_the_stage_says() {
    let a = Variable::new(0);
    let b = Variable::new(1);
    let mut input = IdMap::new();
    input.insert(a, VariablePosition::new(2));
    input.insert(b, VariablePosition::new(0));
    let mut ids = ExecutableIds::new();
    let sort = AnnotatedStage::Sort(Sort {
        variables: vec![SortVariable::Descending(b), SortVariable::Ascending(a)],
    });
    match compile_stage(&input, &vec![], &sort, &mut ids).unwrap() {
        ExecutableStage::Sort(sort) => {
            assert_eq!(sort.sort_on, vec![SortVariable::Descending(b), SortVariable::Ascending(a)])
        }
        _ => panic!("a sort compiles to a sort"),
    }
    match compile_stage(&input, &vec![], &AnnotatedStage::Offset(Offset { offset: 5 }), &mut ids).unwrap() {
        ExecutableStage::Offset(offset) => assert_eq!(offset.offset, 5),
        _ => panic!("an offset compiles to an offset"),
    }
    let require = AnnotatedStage::Require(Require { variables: vec![a, a] });
    match compile_stage(&input, &vec![], &require, &mut ids).unwrap() {
        ExecutableStage::Require(require) => {
            assert_eq!(require.required.len(), 1);
            assert!(require.required.contains(&VariablePosition::new(2)));
        }
        _ => panic!("a require compiles to a require"),
    }
    let select = AnnotatedStage::Select(Select { variables: vec![a] });
    let compiled = compile_stage(&input, &vec![], &select, &mut ids).unwrap();
    let mapping = compiled.output_row_mapping();
    assert_eq!(mapping.len(), 1);
    assert_eq!(position_of(&mapping, a), Some(2));
}

#[test]
fn empty_stage_list() {
    let registry = VariableRegistry::new();
    let functions = ExecutableFunctionRegistry::empty();
    let mut ids = ExecutableIds::new();
    let key = ParameterID::FetchKey(0);
    let x = Variable::new(0);

    let (input, executables, fetch) = compile_stages_and_fetch(
        &registry,
        &functions,
        &vec![],
        &Some(AnnotatedFetch { entries: vec![] }),
        &vec![x],
        &mut ids,
    )
    .unwrap();
    assert!(executables.is_empty());
    assert_eq!(position_of(&input, x), Some(0));
    let fetch = fetch.unwrap();
    assert!(fetch.object_instruction.is_empty());
    assert_eq!(fetch.executable_id, 0);

    // With no stage the fetch clause is compiled against an empty mapping.
    let result = compile_stages_and_fetch(
        &registry,
        &functions,
        &vec![],
        &Some(AnnotatedFetch { entries: vec![FetchEntry { key, fetch: FetchSome::SingleVar(x) }] }),
        &vec![x],
        &mut ids,
    );
    assert_eq!(
        result.err(),
        Some(ExecutableCompilationError::FetchCompilation {
            source: FetchCompilationError::VariableNotAvailable { variable: x }
        })
    );
}

#[test]
fn compiling_twice_gives_the_same_mappings() {
    let mut registry = VariableRegistry::new();
    let a = registry.register_variable_named("a".to_string());
    let b = registry.register_variable_named("b".to_string());
    let t = registry.register_anonymous_variable();
    let stages = vec![
        AnnotatedStage::Match {
            block: block(vec![Constraint::Isa(Isa { thing: a, type_: t }), Constraint::Has(Has { owner: a, attribute: b })]),
            block_annotations: no_annotations(),
        },
        AnnotatedStage::Sort(Sort { variables: vec![SortVariable::Ascending(b)] }),
        AnnotatedStage::Select(Select { variables: vec![b] }),
    ];
    let mut ids = ExecutableIds::new();
    let (_, first) = compile_pipeline_stages(&registry, &stages, &vec![], &vec![a, b], &mut ids).unwrap();
    let (_, second) = compile_pipeline_stages(&registry, &stages, &vec![], &vec![a, b], &mut ids).unwrap();
    assert_eq!(first.len(), second.len());
    for (one, other) in first.iter().zip(second.iter()) {
        let one_mapping = one.output_row_mapping();
        let other_mapping = other.output_row_mapping();
        assert_eq!(one_mapping.len(), other_mapping.len());
        for key in one_mapping.keys() {
            assert_eq!(one_mapping.get(&key), other_mapping.get(&key));
        }
        assert_ne!(one.executable_id(), other.executable_id());
    }
    assert_eq!(second[0].executable_id(), 3);
}

fn function_calling(called: Vec<FunctionID>) -> AnnotatedFunction {
    let mut variable_registry = VariableRegistry::new();
    let argument = variable_registry.register_variable_named("x".to_string());
    let mut constraints = Vec::new();
    for function_id in called {
        let assigned = variable_registry.register_variable_named("y".to_string());
        constraints.push(Constraint::FunctionCall(FunctionCall { function_id, assigned }));
    }
    AnnotatedFunction {
        variable_registry,
        arguments: vec![argument],
        stages: vec![AnnotatedStage::Match { block: block(constraints), block_annotations: no_annotations() }],
        return_operation: AnnotatedReturn::Stream(vec![argument]),
    }
}

#[test]
fn single_self_recursive_function_is_tabled() {
    let f = FunctionID::Schema(DefinitionKey { id: 0 });
    let function = function_calling(vec![f]);
    let mut functions = IdMap::new();
    functions.insert(f, &function);
    let tabling = determine_tabling_requirements(&functions);
    assert_eq!(tabling.len(), 1);
    assert_eq!(tabling.get(&f), Some(&true));
}

#[test]
fn mutual_recursion_is_tabled() {
    let f = FunctionID::Schema(DefinitionKey { id: 0 });
    let g = FunctionID::Schema(DefinitionKey { id: 1 });
    let h = FunctionID::Schema(DefinitionKey { id: 2 });
    let k = FunctionID::Schema(DefinitionKey { id: 3 });
    let missing = FunctionID::Schema(DefinitionKey { id: 9 });
    let calls_g = function_calling(vec![g]);
    let calls_f = function_calling(vec![f]);
    let calls_f_and_missing = function_calling(vec![f, missing]);
    let calls_nothing = function_calling(vec![]);
    let mut functions = IdMap::new();
    functions.insert(f, &calls_g);
    functions.insert(g, &calls_f);
    functions.insert(h, &calls_f_and_missing);
    functions.insert(k, &calls_nothing);
    let tabling = determine_tabling_requirements(&functions);
    assert_eq!(tabling.get(&f), Some(&true));
    assert_eq!(tabling.get(&g), Some(&true));
    // `h` calls into the recursion, but nothing leads back to it.
    assert_eq!(tabling.get(&h), Some(&false));
    assert_eq!(tabling.get(&k), Some(&false));
    assert_eq!(tabling.len(), 4);
}

#[test]
fn longer_cycle_is_tabled() {
    let ids: Vec<FunctionID> = (0..5).map(FunctionID::Preamble).collect();
    let bodies: Vec<AnnotatedFunction> =
        (0..5).map(|index| function_calling(vec![ids[(index + 1) % 5], ids[index % 2]])).collect();
    let mut functions = IdMap::new();
    for (id, body) in ids.iter().zip(bodies.iter()) {
        functions.insert(*id, body);
    }
    let tabling = determine_tabling_requirements(&functions);
    for id in &ids {
        assert_eq!(tabling.get(id), Some(&true));
    }
}

#[test]
fn function_compiles_to_stages_and_return_positions() {
    let mut variable_registry = VariableRegistry::new();
    let x = variable_registry.register_variable_named("x".to_string());
    let y = variable_registry.register_variable_named("y".to_string());
    let function = AnnotatedFunction {
        variable_registry,
        arguments: vec![x],
        stages: vec![AnnotatedStage::Match {
            block: block(vec![Constraint::Has(Has { owner: x, attribute: y })]),
            block_annotations: no_annotations(),
        }],
        return_operation: AnnotatedReturn::Single(vec![y, x]),
    };
    let mut ids = ExecutableIds::new();
    let compiled = compile_function(&function, true, &mut ids).unwrap();
    assert!(compiled.is_tabled);
    assert_eq!(compiled.executable_stages.len(), 1);
    assert_eq!(position_of(&compiled.argument_positions, x), Some(0));
    match compiled.returns {
        ExecutableReturn::Single(positions) => {
            assert_eq!(positions, vec![VariablePosition::new(1), VariablePosition::new(0)])
        }
        ExecutableReturn::Stream(_) => panic!("a single return compiles to a single return"),
    }
}

#[test]
fn pipeline_with_functions_and_fetch() {
    let f = DefinitionKey { id: 4 };
    let g = DefinitionKey { id: 6 };
    let mut schema_functions = IdMap::new();
    schema_functions.insert(f, function_calling(vec![FunctionID::Schema(g)]));
    schema_functions.insert(g, function_calling(vec![FunctionID::Schema(f)]));
    let preamble = vec![function_calling(vec![FunctionID::Schema(f)]), function_calling(vec![FunctionID::Preamble(1)])];

    let mut registry = VariableRegistry::new();
    let a = registry.register_variable_named("a".to_string());
    let t = registry.register_anonymous_variable();
    let stages = vec![AnnotatedStage::Match {
        block: block(vec![Constraint::Isa(Isa { thing: a, type_: t })]),
        block_annotations: no_annotations(),
    }];
    let fetch = Some(AnnotatedFetch {
        entries: vec![
            FetchEntry { key: ParameterID::FetchKey(0), fetch: FetchSome::SingleVar(a) },
            FetchEntry {
                key: ParameterID::FetchKey(1),
                fetch: FetchSome::SingleAttribute(a, AttributeType { id: 3 }),
            },
            FetchEntry { key: ParameterID::FetchKey(2), fetch: FetchSome::Function(FunctionID::Preamble(1)) },
        ],
    });
    let mut ids = ExecutableIds::new();
    let pipeline =
        compile_pipeline(&registry, &schema_functions, &preamble, &stages, &fetch, &vec![], &mut ids).unwrap();

    let functions = &pipeline.executable_functions;
    assert!(functions.get(&FunctionID::Schema(f)).unwrap().is_tabled);
    assert!(functions.get(&FunctionID::Schema(g)).unwrap().is_tabled);
    // A preamble function that only calls a schema function is not recursive.
    assert!(!functions.get(&FunctionID::Preamble(0)).unwrap().is_tabled);
    assert!(functions.get(&FunctionID::Preamble(1)).unwrap().is_tabled);
    assert!(functions.get(&FunctionID::Preamble(2)).is_none());
    assert!(!functions.contains(&FunctionID::Schema(DefinitionKey { id: 5 })));

    assert_eq!(pipeline.executable_stages.len(), 1);
    // Four function stages take the identities before the stage.
    assert_eq!(pipeline.executable_stages[0].executable_id(), 4);
    let fetch = pipeline.executable_fetch.unwrap();
    assert_eq!(fetch.executable_id, 5);
    assert_eq!(
        fetch.object_instruction,
        vec![
            (ParameterID::FetchKey(0), FetchSomeInstruction::SingleVar(VariablePosition::new(0))),
            (
                ParameterID::FetchKey(1),
                FetchSomeInstruction::SingleAttribute(VariablePosition::new(0), AttributeType { id: 3 })
            ),
            (ParameterID::FetchKey(2), FetchSomeInstruction::Function(FunctionID::Preamble(1))),
        ]
    );
    assert_eq!(ids.peek(), 6);
}

#[test]
fn fetch_of_an_unknown_function_fails() {
    let registry = VariableRegistry::new();
    let missing = FunctionID::Schema(DefinitionKey { id: 1 });
    let fetch = Some(AnnotatedFetch {
        entries: vec![FetchEntry { key: ParameterID::FetchKey(0), fetch: FetchSome::Function(missing) }],
    });
    let mut ids = ExecutableIds::new();
    let result = compile_pipeline(&registry, &IdMap::new(), &vec![], &vec![], &fetch, &vec![], &mut ids);
    assert_eq!(
        result.err(),
        Some(ExecutableCompilationError::FetchCompilation {
            source: FetchCompilationError::FunctionNotFound { function_id: missing }
        })
    );
}

#[test]
fn first_failing_stage_ends_the_compilation() {
    let mut registry = VariableRegistry::new();
    let a = registry.register_variable_named("a".to_string());
    let t = registry.register_anonymous_variable();
    let stages = vec![
        AnnotatedStage::Match {
            block: block(vec![Constraint::Isa(Isa { thing: a, type_: t })]),
            block_annotations: no_annotations(),
        },
        AnnotatedStage::Delete { block: block(vec![]), deleted_variables: vec![t], annotations: no_annotations() },
        AnnotatedStage::Insert { block: block(vec![]), annotations: no_annotations() },
    ];
    let mut ids = ExecutableIds::new();
    let result = compile_pipeline_stages(&registry, &stages, &vec![], &vec![], &mut ids);
    assert_eq!(
        result.err(),
        Some(ExecutableCompilationError::DeleteExecutableCompilation {
            source: WriteCompilationError::DeletedThingWasNotInInput { variable: t }
        })
    );
    assert_eq!(ids.peek(), 1);
}

#[test]
fn selected_variables_are_listed_once_in_the_order_of_first_occurrence() {
    let mut registry = VariableRegistry::new();
    let a = registry.register_variable_named("a".to_string());
    let b = registry.register_anonymous_variable();
    let c = registry.register_variable_named("c".to_string());
    let d = registry.register_variable_named("d".to_string());
    let stage = AnnotatedStage::Match {
        block: block(vec![
            Constraint::Links(Links { relation: c, player: b, role_type: a }),
            Constraint::Has(Has { owner: c, attribute: d }),
        ]),
        block_annotations: no_annotations(),
    };
    // The named variables of the stage are c, a, c and d; the variable without a name is left out.
    assert_eq!(stage.named_referenced_variables(&registry), vec![c, a, c, d]);
    assert_eq!(select_for_stage(&stage, &registry, &vec![d, a, d]), vec![d, a, c]);
    assert_eq!(select_for_stage(&stage, &registry, &vec![]), vec![c, a, d]);
    let limit = AnnotatedStage::Limit(Limit { limit: 1 });
    assert_eq!(select_for_stage(&limit, &registry, &vec![b, b, a, b]), vec![b, a]);
}

#[test]
fn stages_find_what_they_read_in_their_input() {
    let a = Variable::new(0);
    let b = Variable::new(1);
    let mut input = IdMap::new();
    input.insert(a, VariablePosition::new(0));
    let ready = |stage: AnnotatedStage| stage_is_ready(&input, &vec![a, b], &stage);
    assert!(ready(AnnotatedStage::Select(Select { variables: vec![a] })));
    assert!(!ready(AnnotatedStage::Select(Select { variables: vec![a, b] })));
    assert!(ready(AnnotatedStage::Require(Require { variables: vec![] })));
    assert!(!ready(AnnotatedStage::Require(Require { variables: vec![b] })));
    assert!(ready(AnnotatedStage::Sort(Sort { variables: vec![SortVariable::Ascending(b)] })));
    assert!(ready(AnnotatedStage::Limit(Limit { limit: 0 })));
    assert!(ready(AnnotatedStage::Match { block: block(vec![]), block_annotations: no_annotations() }));
    let reduce = |within_group: Vec<Variable>, reducers: Vec<ReduceInstruction<Variable>>| {
        AnnotatedStage::Reduce(
            Reduce {
                assigned_reductions: vec![AssignedReduction { assigned: b, reduction: Reducer::Count }],
                within_group,
            },
            reducers,
        )
    };
    assert!(ready(reduce(vec![a], vec![ReduceInstruction::Count])));
    assert!(ready(reduce(vec![], vec![ReduceInstruction::SumLong(a)])));
    // A grouping variable, or a variable that a reducer reads, is not in the input.
    assert!(!ready(reduce(vec![b], vec![ReduceInstruction::Count])));
    assert!(!ready(reduce(vec![a], vec![ReduceInstruction::SumLong(b)])));
    // There is not one reducer for each reduction.
    assert!(!ready(reduce(vec![a], vec![])));
}
