use vaab_vm::types::{can_json, can_json_within, Checked, Choice, ChoiceVariant, DeclaredType, Field, Type};

fn field(name: &str, declared: Type) -> Field {
    Field { name: name.to_string(), declared }
}

fn record(name: &str, fields: Vec<Field>) -> DeclaredType {
    DeclaredType { name: name.to_string(), fields }
}

#[test]
fn built_in_scalars_can_json() {
    let checked = Checked::default();
    assert!(can_json(&Type::Int, &checked));
}

#[test]
fn a_record_can_json_when_every_field_can() {
    let checked = Checked {
        declared_types: vec![record("Person", vec![field("name", Type::Text)])],
        ..Checked::default()
    };
    assert!(can_json(&Type::named("Person"), &checked));
}

#[test]
fn a_record_with_a_function_field_cannot_json() {
    let checked = Checked {
        declared_types: vec![record("Handler", vec![field("name", Type::Text), field("run", Type::Function)])],
        ..Checked::default()
    };
    assert!(!can_json(&Type::named("Handler"), &checked));
}

#[test]
fn an_undeclared_name_cannot_json() {
    let checked = Checked::default();
    assert!(!can_json(&Type::named("Ghost"), &checked));
}

#[test]
fn maps_need_text_keys() {
    let checked = Checked::default();
    let by_text = Type::Table { key: Box::new(Type::Text), value: Box::new(Type::Int) };
    let by_number = Type::Table { key: Box::new(Type::Int), value: Box::new(Type::Int) };
    assert!(can_json(&by_text, &checked));
    assert!(!can_json(&by_number, &checked));
}

#[test]
fn containers_follow_what_they_hold() {
    let checked = Checked::default();
    assert!(can_json(&Type::List(Box::new(Type::Maybe(Box::new(Type::Bool)))), &checked));
    assert!(!can_json(&Type::List(Box::new(Type::Task)), &checked));
    assert!(can_json(&Type::Tuple(vec![Type::Int, Type::Text, Type::Nothing]), &checked));
    assert!(!can_json(&Type::Tuple(vec![Type::Int, Type::Channel]), &checked));
    assert!(!can_json(&Type::Variable(3), &checked));
    assert!(can_json(&Type::Parameter("T".to_string()), &checked));
    assert!(can_json(&Type::Unknown, &checked));
}

#[test]
fn a_choice_can_json_when_every_variant_field_can() {
    let shape = Choice {
        name: "Shape".to_string(),
        variants: vec![
            ChoiceVariant { name: "Circle".to_string(), fields: vec![field("radius", Type::Float)] },
            ChoiceVariant { name: "Empty".to_string(), fields: Vec::new() },
        ],
    };
    let action = Choice {
        name: "Action".to_string(),
        variants: vec![
            ChoiceVariant { name: "Say".to_string(), fields: vec![field("text", Type::Text)] },
            ChoiceVariant { name: "Do".to_string(), fields: vec![field("work", Type::Ability)] },
        ],
    };
    let checked = Checked { declared_types: Vec::new(), choices: vec![shape, action] };
    assert!(can_json(&Type::named("Shape"), &checked));
    assert!(!can_json(&Type::named("Action"), &checked));
}

#[test]
fn a_record_is_found_before_a_choice_of_the_same_name() {
    let checked = Checked {
        declared_types: vec![record("Both", vec![field("x", Type::Int)])],
        choices: vec![Choice {
            name: "Both".to_string(),
            variants: vec![ChoiceVariant { name: "F".to_string(), fields: vec![field("f", Type::Function)] }],
        }],
    };
    assert!(can_json(&Type::named("Both"), &checked));
}

#[test]
fn records_may_nest() {
    let checked = Checked {
        declared_types: vec![
            record("Team", vec![field("members", Type::List(Box::new(Type::named("Person"))))]),
            record("Person", vec![field("name", Type::Text)]),
        ],
        ..Checked::default()
    };
    assert!(can_json(&Type::named("Team"), &checked));
}

#[test]
fn a_type_that_names_itself_gets_no_verdict_at_any_depth() {
    let checked = Checked {
        declared_types: vec![record("Tree", vec![field("children", Type::List(Box::new(Type::named("Tree"))))])],
        ..Checked::default()
    };
    assert_eq!(can_json_within(&Type::named("Tree"), &checked, 50), None);
    let people = Checked {
        declared_types: vec![record("Person", vec![field("name", Type::Text)])],
        ..Checked::default()
    };
    assert_eq!(can_json_within(&Type::named("Person"), &people, 0), None);
    assert_eq!(can_json_within(&Type::named("Person"), &people, 1), Some(true));
}
