use query_pipeline::label::Label;

#[test]
fn label_name_and_scope() {
    let label = Label { name: "parent".to_string(), scope: Some("parentship".to_string()) };
    assert_eq!(label.name(), "parent");
    assert_eq!(label.scope(), &Some("parentship".to_string()));
    let plain = Label { name: "person".to_string(), scope: None };
    assert_eq!(plain.name(), "person");
    assert_eq!(plain.scope(), &None);
}
