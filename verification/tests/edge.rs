use gremlin_core::direction::Direction;
use gremlin_core::edge::{Edge, Vertex};
use gremlin_core::errors::GraphError;
use gremlin_core::property::PropertyValue;

fn knows_edge() -> Edge {
    Edge::new(
        String::from("e7"),
        String::from("knows"),
        Vertex::new(String::from("g1")),
        Vertex::new(String::from("r1")),
        String::from("g"),
    )
}

#[test]
fn vertices_follow_the_direction() {
    let ed = knows_edge();
    let out = ed.vertices(Direction::Out);
    assert_eq!(out.len(), 1);
    assert_eq!(out[0].id(), "g1");
    let inc = ed.vertices(Direction::In);
    assert_eq!(inc.len(), 1);
    assert_eq!(inc[0].id(), "r1");
}

#[test]
fn both_vertices_are_tail_then_head() {
    let ed = knows_edge();
    let both = ed.vertices(Direction::Both);
    assert_eq!(both.len(), 2);
    assert_eq!(both[0].id(), "g1");
    assert_eq!(both[1].id(), "r1");
    let derived = ed.both_vertices();
    assert_eq!(derived.len(), 2);
    assert_eq!(derived[0].id(), "g1");
    assert_eq!(derived[1].id(), "r1");
}

#[test]
fn derived_endpoint_accessors_match_vertices() {
    let ed = knows_edge();
    assert_eq!(ed.out_vertex().id(), "g1");
    assert_eq!(ed.in_vertex().id(), "r1");
}

#[test]
fn knows_edge_scenario() {
    let mut ed = knows_edge();
    ed.set_property("since", PropertyValue::Int(2009)).unwrap();
    assert_eq!(ed.label(), "knows");
    assert_eq!(ed.out_vertex().id(), "g1");
    assert_eq!(ed.in_vertex().id(), "r1");
    assert!(matches!(
        ed.value("since"),
        Ok(PropertyValue::Int(2009))
    ));
}

#[test]
fn edge_is_an_element() {
    let mut ed = knows_edge();
    assert_eq!(ed.id(), "e7");
    assert_eq!(ed.graph(), "g");
    assert!(!ed.is_removed());
    ed.set_property("since", PropertyValue::Int(2009)).unwrap();
    let keys = ed.keys().unwrap();
    assert_eq!(keys, vec![String::from("since")]);
    let props = ed.properties(vec![]).unwrap();
    assert_eq!(props.len(), 1);
    assert_eq!(props[0].key(), "since");
    assert_eq!(props[0].element(), "e7");
    let vs = ed.values(vec!["since"]).unwrap();
    assert_eq!(vs, vec![PropertyValue::Int(2009)]);
}

#[test]
fn removed_edge_fails_fast_but_keeps_endpoints() {
    let mut ed = knows_edge();
    ed.set_property("since", PropertyValue::Int(2009)).unwrap();
    ed.remove();
    assert!(ed.is_removed());
    assert!(matches!(
        ed.property("anything"),
        Err(GraphError::ElementRemoved)
    ));
    assert!(matches!(
        ed.value("since"),
        Err(GraphError::ElementRemoved)
    ));
    assert_eq!(ed.out_vertex().id(), "g1");
    assert_eq!(ed.in_vertex().id(), "r1");
}

#[test]
fn default_label_is_edge() {
    assert_eq!(Edge::default_label(), "edge");
}

#[test]
fn vertex_duplicate_keeps_the_id() {
    let v = Vertex::new(String::from("g1"));
    assert_eq!(v.duplicate().id(), "g1");
}
