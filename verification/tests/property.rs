use gremlin_core::errors::GraphError;
use gremlin_core::property::{Property, PropertyValue};

fn absent_property() -> Property {
    Property::new(String::from("since"), None, String::from("e1"))
}

fn present_property() -> Property {
    Property::new(
        String::from("since"),
        Some(PropertyValue::Int(2011)),
        String::from("e1"),
    )
}

#[test]
fn key_and_element_are_total() {
    let p = absent_property();
    assert_eq!(p.key(), "since");
    assert_eq!(p.element(), "e1");
}

#[test]
fn absent_property_reports_no_value() {
    let p = absent_property();
    assert!(!p.is_present());
    assert_eq!(p.value(), None);
}

#[test]
fn absent_property_or_else_yields_default() {
    let p = absent_property();
    assert_eq!(p.or_else(PropertyValue::Int(7)), PropertyValue::Int(7));
    assert_eq!(
        p.or_else_get(|| PropertyValue::Bool(true)),
        PropertyValue::Bool(true)
    );
}

#[test]
fn absent_property_unwrap_fails() {
    let p = absent_property();
    assert!(matches!(p.unwrap(), Err(GraphError::PropertyAbsent)));
}

#[test]
fn present_property_reports_its_value() {
    let p = present_property();
    assert!(p.is_present());
    assert_eq!(p.value(), Some(PropertyValue::Int(2011)));
    assert_eq!(p.or_else(PropertyValue::Int(7)), PropertyValue::Int(2011));
    assert!(matches!(p.unwrap(), Ok(PropertyValue::Int(2011))));
}

#[test]
fn or_else_get_is_lazy() {
    let p = present_property();
    let r = p.or_else_get(|| panic!("supplier must not run when the value is present"));
    assert_eq!(r, PropertyValue::Int(2011));
}

#[test]
fn if_present_acts_only_on_present_values() {
    let seen = std::cell::Cell::new(0i64);
    present_property().if_present(|v| {
        if let PropertyValue::Int(i) = v {
            seen.set(i);
        }
    });
    assert_eq!(seen.get(), 2011);

    let touched = std::cell::Cell::new(false);
    absent_property().if_present(|_| touched.set(true));
    assert!(!touched.get());
}

#[test]
fn remove_clears_and_is_idempotent() {
    let mut p = present_property();
    p.remove();
    assert!(!p.is_present());
    p.remove();
    assert!(!p.is_present());
    assert_eq!(p.key(), "since");
    assert_eq!(p.element(), "e1");
}

#[test]
fn string_values_compare_by_content() {
    let a = PropertyValue::Str(String::from("knows"));
    let b = PropertyValue::Str(String::from("knows"));
    let c = PropertyValue::Str(String::from("likes"));
    assert_eq!(a, b);
    assert_ne!(a, c);
    assert_ne!(a, PropertyValue::Int(1));
    assert_ne!(PropertyValue::Bool(false), PropertyValue::Int(0));
}
