use query_pipeline::pattern::{Constraint, Has, Isa, Links};
use query_pipeline::registry::RepresentationError;
use query_pipeline::translation::{
    translate_delete, translate_insert, Deletable, DeletableKind, Delete, Insert, RolePlayerPattern, Statement,
    TranslationContext, TypeQLVariable,
};
use query_pipeline::variable::{Variable, VariableCategory};

fn named(name: &str) -> TypeQLVariable {
    TypeQLVariable { name: Some(name.to_string()) }
}

fn anonymous() -> TypeQLVariable {
    TypeQLVariable { name: None }
}

fn player(name: &str) -> RolePlayerPattern {
    RolePlayerPattern { player: named(name) }
}

#[test]
fn delete_is_translated_into_constraints_and_deleted_variables() {
    let mut context = TranslationContext::new();
    let delete = Delete {
        deletables: vec![
            Deletable { kind: DeletableKind::Has { attribute: named("n"), owner: named("x") } },
            Deletable { kind: DeletableKind::Links { players: vec![player("p"), player("x")], relation: named("r") } },
            Deletable { kind: DeletableKind::Concept { variable: named("y") } },
            Deletable { kind: DeletableKind::Concept { variable: named("x") } },
        ],
    };
    let (block, deleted) = translate_delete(&mut context, &delete).unwrap();
    let x = Variable::new(0);
    let n = Variable::new(1);
    let r = Variable::new(2);
    let p = Variable::new(3);
    let first_role = Variable::new_anonymous(4);
    let second_role = Variable::new_anonymous(5);
    let y = Variable::new(6);
    assert_eq!(
        block.conjunction().constraints(),
        &vec![
            Constraint::Has(Has { owner: x, attribute: n }),
            Constraint::Links(Links { relation: r, player: p, role_type: first_role }),
            Constraint::Links(Links { relation: r, player: x, role_type: second_role }),
        ]
    );
    assert_eq!(deleted, vec![y, x]);
    assert_eq!(context.get_variable("x"), Some(x));
    assert_eq!(context.get_variable("y"), Some(y));
    assert_eq!(context.get_variable("z"), None);
    let registry = &context.variable_registry;
    assert_eq!(registry.variable_names().keys(), vec![x, n, r, p, y]);
    assert_eq!(registry.get_variable_name(p), Some(&"p".to_string()));
    assert_eq!(registry.get_variable_category(x), Some(VariableCategory::Object));
    assert_eq!(registry.get_variable_category(n), Some(VariableCategory::Attribute));
    assert_eq!(registry.get_variable_category(r), Some(VariableCategory::Relation));
    assert_eq!(registry.get_variable_category(p), Some(VariableCategory::Object));
    assert_eq!(registry.get_variable_category(first_role), Some(VariableCategory::Role));
    assert_eq!(registry.get_variable_category(second_role), Some(VariableCategory::Role));
    assert_eq!(registry.get_variable_category(y), None);
    // The next variable follows the last one of the stage.
    assert_eq!(context.get_or_declare_variable("z"), Variable::new(7));
    assert_eq!(context.get_or_declare_variable("n"), n);
}

#[test]
fn conflict_of_categories_ends_the_translation() {
    let mut context = TranslationContext::new();
    let delete = Delete {
        deletables: vec![
            Deletable { kind: DeletableKind::Concept { variable: named("a") } },
            Deletable { kind: DeletableKind::Has { attribute: named("n"), owner: named("n") } },
            Deletable { kind: DeletableKind::Concept { variable: named("b") } },
        ],
    };
    match translate_delete(&mut context, &delete) {
        Err(RepresentationError::VariableCategoryMismatch { variable_name, category_1, category_2 }) => {
            assert_eq!(variable_name, "n");
            assert_eq!(category_1, VariableCategory::Attribute);
            assert_eq!(category_2, VariableCategory::Object);
        }
        Ok(_) => panic!("an object is no attribute"),
    }
    // What came before the conflict stays registered; what comes after it is not reached.
    assert_eq!(context.get_variable("a"), Some(Variable::new(0)));
    assert_eq!(context.get_variable("n"), Some(Variable::new(1)));
    assert_eq!(context.get_variable("b"), None);
    assert_eq!(context.variable_registry.get_variable_category(Variable::new(1)), Some(VariableCategory::Object));
}

#[test]
fn insert_is_translated_into_constraints() {
    let mut context = TranslationContext::new();
    let insert = Insert {
        statements: vec![
            Statement::Isa { thing: named("x"), type_: anonymous() },
            Statement::Has { owner: named("x"), attribute: named("a") },
            Statement::Isa { thing: named("m"), type_: named("t") },
            Statement::Links { relation: named("m"), players: vec![player("x")] },
        ],
    };
    let block = translate_insert(&mut context, &insert).unwrap();
    let x = Variable::new(0);
    let person = Variable::new_anonymous(1);
    let a = Variable::new(2);
    let m = Variable::new(3);
    let t = Variable::new(4);
    let role = Variable::new_anonymous(5);
    assert_eq!(
        block.conjunction().constraints(),
        &vec![
            Constraint::Isa(Isa { thing: x, type_: person }),
            Constraint::Has(Has { owner: x, attribute: a }),
            Constraint::Isa(Isa { thing: m, type_: t }),
            Constraint::Links(Links { relation: m, player: x, role_type: role }),
        ]
    );
    let registry = &context.variable_registry;
    // A thing that owns is an object; a thing that links is a relation.
    assert_eq!(registry.get_variable_category(x), Some(VariableCategory::Object));
    assert_eq!(registry.get_variable_category(m), Some(VariableCategory::Relation));
    assert_eq!(registry.get_variable_category(person), Some(VariableCategory::Type));
    assert_eq!(registry.get_variable_category(t), Some(VariableCategory::Type));
    assert_eq!(registry.get_variable_category(a), Some(VariableCategory::Attribute));
    assert_eq!(registry.get_variable_category(role), Some(VariableCategory::Role));

    let conflicting = Insert {
        statements: vec![Statement::Has { owner: named("a"), attribute: named("x") }],
    };
    match translate_insert(&mut context, &conflicting) {
        Err(RepresentationError::VariableCategoryMismatch { variable_name, category_1, category_2 }) => {
            assert_eq!(variable_name, "a");
            assert_eq!(category_1, VariableCategory::Object);
            assert_eq!(category_2, VariableCategory::Attribute);
        }
        Ok(_) => panic!("an attribute is no object"),
    }
}
