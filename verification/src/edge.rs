use vstd::prelude::*;

use crate::direction::Direction;
use crate::element::{
    all_present, key_views, lookup, present_keys, selected, values_of, Element, ElementView,
};
use crate::errors::GraphError;
use crate::property::{Property, PropertyValue, PropertyView};

verus! {

/// A vertex handle: the identifier of a node in the graph. At this layer a
/// vertex is an external collaborator, referenced only as an edge
/// endpoint; its representation and storage belong to the storage engine.
pub struct Vertex {
    id: String,
}

impl View for Vertex {
    type V = Seq<char>;

    closed spec fn view(&self) -> Seq<char> {
        self.id@
    }
}

impl Vertex {
    /// A handle for the vertex with the given identifier.
    pub fn new(id: String) -> (r: Vertex)
        ensures
            r@ == id@,
    {
        Vertex { id }
    }

    /// The identifier of the vertex.
    pub fn id(&self) -> (r: String)
        ensures
            r@ == self@,
    {
        self.id.clone()
    }

    /// An equal copy of this handle.
    pub fn duplicate(&self) -> (r: Vertex)
        ensures
            r@ == self@,
    {
        Vertex { id: self.id.clone() }
    }
}

/// An `Edge` links two vertices. Along with its properties, an edge has a
/// direction and a label. The direction determines which vertex is the
/// tail (`Out` vertex) and which the head (`In` vertex); the label names
/// the type of relationship between the two. Diagrammatically:
/// ```text
/// outVertex ---label---> inVertex
/// ```
/// An edge's properties describe the relationship itself, not either
/// endpoint.
pub struct Edge {
    element: Element,
    tail: Vertex,
    head: Vertex,
}

/// Mathematical model of an edge: its element part and the identifiers of
/// its tail (`Out`) and head (`In`) vertices.
pub ghost struct EdgeView {
    pub element: ElementView,
    pub tail: Seq<char>,
    pub head: Seq<char>,
}

impl View for Edge {
    type V = EdgeView;

    closed spec fn view(&self) -> EdgeView {
        EdgeView { element: self.element@, tail: self.tail@, head: self.head@ }
    }
}

/// The identifiers of the endpoints selected by a direction: the tail for
/// `Out`, the head for `In`, and for `Both` the tail first, then the head,
/// never the reverse order.
pub open spec fn spec_vertices(e: EdgeView, d: Direction) -> Seq<Seq<char>> {
    match d {
        Direction::Out => seq![e.tail],
        Direction::In => seq![e.head],
        Direction::Both => seq![e.tail, e.head],
    }
}

/// Selecting `Both` endpoints yields exactly the `Out` selection followed
/// by the `In` selection, for every edge.
pub proof fn lemma_both_is_out_then_in(e: EdgeView)
    ensures
        spec_vertices(e, Direction::Both) == spec_vertices(e, Direction::Out) + spec_vertices(
            e,
            Direction::In,
        ),
{
    assert(spec_vertices(e, Direction::Both) =~= spec_vertices(e, Direction::Out)
        + spec_vertices(e, Direction::In));
}

impl Edge {
    /// The typical default label for an edge; rarely used, since a label
    /// is normally specified when an edge is created.
    pub fn default_label() -> (r: String)
        ensures
            r@ == "edge"@,
            r@.len() > 0,
    {
        proof {
            reveal_strlit("edge");
        }
        "edge".to_owned()
    }

    /// Creates a live edge labeled `label` from the tail vertex to the
    /// head vertex, with no properties.
    pub fn new(id: String, label: String, tail: Vertex, head: Vertex, graph: String) -> (r: Edge)
        requires
            label@.len() > 0,
        ensures
            r@.element == (ElementView {
                id: id@,
                label: label@,
                graph: graph@,
                removed: false,
                props: Seq::empty(),
            }),
            r@.element.wf(),
            r@.tail == tail@,
            r@.head == head@,
    {
        Edge { element: Element::new(id, label, graph), tail, head }
    }

    /// The vertex or vertices incident to this edge, as selected by
    /// `direction`: the tail for `Out`, the head for `In`, and for `Both`
    /// the tail first, then the head.
    pub fn vertices(&self, direction: Direction) -> (r: Vec<Vertex>)
        ensures
            r@.map_values(|v: Vertex| v@) == spec_vertices(self@, direction),
    {
        let mut out: Vec<Vertex> = Vec::new();
        match direction {
            Direction::Out => {
                out.push(self.tail.duplicate());
            },
            Direction::In => {
                out.push(self.head.duplicate());
            },
            Direction::Both => {
                out.push(self.tail.duplicate());
                out.push(self.head.duplicate());
            },
        }
        proof {
            assert(out@.map_values(|v: Vertex| v@) =~= spec_vertices(self@, direction));
        }
        out
    }

    /// The outgoing (tail) vertex of this edge: the first vertex selected
    /// by `Out`.
    pub fn out_vertex(&self) -> (r: Vertex)
        ensures
            r@ == self@.tail,
    {
        let mut vs = self.vertices(Direction::Out);
        let ghost m = vs@.map_values(|v: Vertex| v@);
        proof {
            assert(m.len() == vs@.len());
        }
        let v = vs.remove(0);
        proof {
            assert(v@ == m[0]);
        }
        v
    }

    /// The incoming (head) vertex of this edge: the first vertex selected
    /// by `In`.
    pub fn in_vertex(&self) -> (r: Vertex)
        ensures
            r@ == self@.head,
    {
        let mut vs = self.vertices(Direction::In);
        let ghost m = vs@.map_values(|v: Vertex| v@);
        proof {
            assert(m.len() == vs@.len());
        }
        let v = vs.remove(0);
        proof {
            assert(v@ == m[0]);
        }
        v
    }

    /// Both vertices of this edge: the outgoing vertex first, the incoming
    /// vertex second.
    pub fn both_vertices(&self) -> (r: Vec<Vertex>)
        ensures
            r@.map_values(|v: Vertex| v@) == spec_vertices(self@, Direction::Both),
    {
        self.vertices(Direction::Both)
    }

    /// The unique identifier of the edge; total.
    pub fn id(&self) -> (r: String)
        ensures
            r@ == self@.element.id,
    {
        self.element.id()
    }

    /// The relationship label of the edge; total.
    pub fn label(&self) -> (r: String)
        ensures
            r@ == self@.element.label,
    {
        self.element.label()
    }

    /// The identifier of the graph this edge is within; total.
    pub fn graph(&self) -> (r: String)
        ensures
            r@ == self@.element.graph,
    {
        self.element.graph()
    }

    /// Whether the edge has been removed; total.
    pub fn is_removed(&self) -> (r: bool)
        ensures
            r == self@.element.removed,
    {
        self.element.is_removed()
    }

    /// The keys of the edge's present properties; inherited unchanged from
    /// the element contract.
    pub fn keys(&self) -> (r: Result<Vec<String>, GraphError>)
        ensures
            self@.element.removed ==> (r matches Err(e) && e == GraphError::ElementRemoved),
            !self@.element.removed ==> (r matches Ok(ks) && ks@.map_values(|s: String| s@)
                == present_keys(self@.element.props)),
    {
        self.element.keys()
    }

    /// The property stored under `key`; inherited unchanged from the
    /// element contract.
    pub fn property(&self, key: &str) -> (r: Result<Option<Property>, GraphError>)
        ensures
            self@.element.removed ==> (r matches Err(e) && e == GraphError::ElementRemoved),
            !self@.element.removed && !self@.element.has_key(key@) ==> r == Ok::<
                Option<Property>,
                GraphError,
            >(None),
            !self@.element.removed && self@.element.has_key(key@) ==> (r matches Ok(op)
                && op matches Some(p) && lookup(self@.element.props, key@) == Some(p@)),
    {
        self.element.property(key)
    }

    /// Upserts `value` under `key` on the relationship itself; inherited
    /// unchanged from the element contract.
    pub fn set_property(&mut self, key: &str, value: PropertyValue) -> (r: Result<
        Property,
        GraphError,
    >)
        requires
            key@.len() > 0,
        ensures
            final(self)@.tail == old(self)@.tail,
            final(self)@.head == old(self)@.head,
            old(self)@.element.removed ==> (r matches Err(e) && e == GraphError::ElementRemoved)
                && final(self)@ == old(self)@,
            !old(self)@.element.removed ==> final(self)@.element == old(self)@.element.with_set(
                key@,
                value@,
            ) && (r matches Ok(p) && p@ == (PropertyView {
                key: key@,
                value: Some(value@),
                element: old(self)@.element.id,
            })),
            old(self)@.element.wf() ==> final(self)@.element.wf(),
    {
        self.element.set_property(key, value)
    }

    /// The present value stored under `key`; inherited unchanged from the
    /// element contract.
    pub fn value(&self, key: &str) -> (r: Result<PropertyValue, GraphError>)
        ensures
            self@.element.removed ==> (r matches Err(e) && e == GraphError::ElementRemoved),
            !self@.element.removed ==> match self@.element.value_of(key@) {
                Some(v) => r matches Ok(pv) && pv@ == v,
                None => r matches Err(e) && e == GraphError::PropertyAbsent,
            },
    {
        self.element.value(key)
    }

    /// The properties selected by `property_keys`; inherited unchanged
    /// from the element contract.
    pub fn properties(&self, property_keys: Vec<&str>) -> (r: Result<Vec<Property>, GraphError>)
        ensures
            self@.element.removed ==> (r matches Err(e) && e == GraphError::ElementRemoved),
            !self@.element.removed ==> (r matches Ok(ps) && ps@.map_values(|p: Property| p@)
                == selected(self@.element.props, key_views(property_keys@))),
    {
        self.element.properties(property_keys)
    }

    /// The present values selected by `property_keys`; inherited unchanged
    /// from the element contract.
    pub fn values(&self, property_keys: Vec<&str>) -> (r: Result<Vec<PropertyValue>, GraphError>)
        ensures
            self@.element.removed ==> (r matches Err(e) && e == GraphError::ElementRemoved),
            !self@.element.removed && all_present(
                selected(self@.element.props, key_views(property_keys@)),
            ) ==> (r matches Ok(vs) && vs@.map_values(|v: PropertyValue| v@) == values_of(
                selected(self@.element.props, key_views(property_keys@)),
            )),
            !self@.element.removed && !all_present(
                selected(self@.element.props, key_views(property_keys@)),
            ) ==> (r matches Err(e) && e == GraphError::PropertyAbsent),
    {
        self.element.values(property_keys)
    }

    /// Detaches the edge from the owning graph; the endpoints stay
    /// recorded on the stale handle. Idempotent.
    pub fn remove(&mut self)
        ensures
            final(self)@.tail == old(self)@.tail,
            final(self)@.head == old(self)@.head,
            final(self)@.element == (ElementView {
                id: old(self)@.element.id,
                label: old(self)@.element.label,
                graph: old(self)@.element.graph,
                removed: true,
                props: Seq::empty(),
            }),
            old(self)@.element.wf() ==> final(self)@.element.wf(),
    {
        self.element.remove()
    }
}

} // verus!
