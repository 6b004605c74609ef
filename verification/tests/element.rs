use gremlin_core::element::Element;
use gremlin_core::errors::GraphError;
use gremlin_core::property::PropertyValue;

fn fresh_element() -> Element {
    Element::new(
        String::from("v1"),
        String::from("person"),
        String::from("g"),
    )
}

#[test]
fn accessors_are_total() {
    let e = fresh_element();
    assert_eq!(e.id(), "v1");
    assert_eq!(e.label(), "person");
    assert_eq!(e.graph(), "g");
    assert!(!e.is_removed());
}

#[test]
fn unset_key_is_invisible() {
    let e = fresh_element();
    assert!(matches!(e.property("age"), Ok(None)));
    let keys = e.keys().unwrap();
    assert!(!keys.contains(&String::from("age")));
    assert!(keys.is_empty());
}

#[test]
fn set_then_get_observes_the_write() {
    let mut e = fresh_element();
    let p = e.set_property("age", PropertyValue::Int(29)).unwrap();
    assert_eq!(p.key(), "age");
    assert_eq!(p.element(), "v1");
    assert_eq!(p.value(), Some(PropertyValue::Int(29)));

    let keys = e.keys().unwrap();
    assert!(keys.contains(&String::from("age")));

    let found = e.property("age").unwrap().unwrap();
    assert!(matches!(found.unwrap(), Ok(PropertyValue::Int(29))));
    assert!(matches!(e.value("age"), Ok(PropertyValue::Int(29))));
}

#[test]
fn last_write_wins_and_keeps_one_property() {
    let mut e = fresh_element();
    e.set_property("age", PropertyValue::Int(29)).unwrap();
    e.set_property("age", PropertyValue::Int(30)).unwrap();
    assert!(matches!(e.value("age"), Ok(PropertyValue::Int(30))));
    let props = e.properties(vec!["age"]).unwrap();
    assert_eq!(props.len(), 1);
    let keys = e.keys().unwrap();
    assert_eq!(keys, vec![String::from("age")]);
}

#[test]
fn value_on_unset_key_is_absent() {
    let e = fresh_element();
    assert!(matches!(e.value("age"), Err(GraphError::PropertyAbsent)));
}

#[test]
fn properties_with_empty_filter_returns_all() {
    let mut e = fresh_element();
    e.set_property("name", PropertyValue::Str(String::from("gremlin")))
        .unwrap();
    e.set_property("age", PropertyValue::Int(29)).unwrap();
    let all = e.properties(vec![]).unwrap();
    assert_eq!(all.len(), 2);
    assert_eq!(all[0].key(), "name");
    assert_eq!(all[1].key(), "age");
}

#[test]
fn properties_filters_by_key() {
    let mut e = fresh_element();
    e.set_property("name", PropertyValue::Str(String::from("gremlin")))
        .unwrap();
    e.set_property("age", PropertyValue::Int(29)).unwrap();
    let some = e.properties(vec!["age", "missing"]).unwrap();
    assert_eq!(some.len(), 1);
    assert_eq!(some[0].key(), "age");
    let none = e.properties(vec!["missing"]).unwrap();
    assert!(none.is_empty());
}

#[test]
fn values_maps_selected_properties() {
    let mut e = fresh_element();
    e.set_property("name", PropertyValue::Str(String::from("gremlin")))
        .unwrap();
    e.set_property("age", PropertyValue::Int(29)).unwrap();
    let vs = e.values(vec!["name", "age"]).unwrap();
    assert_eq!(
        vs,
        vec![
            PropertyValue::Str(String::from("gremlin")),
            PropertyValue::Int(29)
        ]
    );
    let all = e.values(vec![]).unwrap();
    assert_eq!(all.len(), 2);
}

#[test]
fn removed_element_fails_fast() {
    let mut e = fresh_element();
    e.set_property("age", PropertyValue::Int(29)).unwrap();
    e.remove();
    assert!(e.is_removed());
    assert!(matches!(
        e.property("anything"),
        Err(GraphError::ElementRemoved)
    ));
    assert!(matches!(e.keys(), Err(GraphError::ElementRemoved)));
    assert!(matches!(
        e.value("age"),
        Err(GraphError::ElementRemoved)
    ));
    assert!(matches!(
        e.values(vec![]),
        Err(GraphError::ElementRemoved)
    ));
    assert!(matches!(
        e.properties(vec![]),
        Err(GraphError::ElementRemoved)
    ));
    assert!(matches!(
        e.set_property("age", PropertyValue::Int(1)),
        Err(GraphError::ElementRemoved)
    ));
    assert_eq!(e.id(), "v1");
    assert_eq!(e.label(), "person");
}

#[test]
fn remove_is_idempotent() {
    let mut e = fresh_element();
    e.remove();
    e.remove();
    assert!(e.is_removed());
}
