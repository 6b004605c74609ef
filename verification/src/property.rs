use vstd::prelude::*;

use crate::errors::GraphError;

verus! {

/// The closed set of value kinds a property may carry at this layer. A
/// single lookup can therefore return heterogeneous values without a
/// per-call type parameter.
#[derive(Debug)]
pub enum PropertyValue {
    /// A boolean value.
    Bool(bool),
    /// A signed integer value.
    Int(i64),
    /// A string value.
    Str(String),
}

/// Mathematical model of a property value.
pub ghost enum ValueView {
    Bool(bool),
    Int(int),
    Str(Seq<char>),
}

impl View for PropertyValue {
    type V = ValueView;

    open spec fn view(&self) -> ValueView {
        match self {
            PropertyValue::Bool(b) => ValueView::Bool(*b),
            PropertyValue::Int(i) => ValueView::Int(*i as int),
            PropertyValue::Str(s) => ValueView::Str(s@),
        }
    }
}

/// The model of an optional value: the stored option with each value
/// replaced by its model.
pub open spec fn opt_value_view(v: Option<PropertyValue>) -> Option<ValueView> {
    match v {
        Some(pv) => Some(pv@),
        None => None,
    }
}

impl PropertyValue {
    /// An equal copy of this value.
    pub fn duplicate(&self) -> (r: PropertyValue)
        ensures
            r == *self,
    {
        match self {
            PropertyValue::Bool(b) => PropertyValue::Bool(*b),
            PropertyValue::Int(i) => PropertyValue::Int(*i),
            PropertyValue::Str(s) => PropertyValue::Str(s.clone()),
        }
    }
}

impl PartialEq for PropertyValue {
    fn eq(&self, other: &PropertyValue) -> (r: bool) {
        match (self, other) {
            (PropertyValue::Bool(a), PropertyValue::Bool(b)) => a == b,
            (PropertyValue::Int(a), PropertyValue::Int(b)) => a == b,
            (PropertyValue::Str(a), PropertyValue::Str(b)) => crate::text::str_eq(
                a.as_str(),
                b.as_str(),
            ),
            _ => false,
        }
    }
}

impl vstd::std_specs::cmp::PartialEqSpecImpl for PropertyValue {
    open spec fn obeys_eq_spec() -> bool {
        true
    }

    open spec fn eq_spec(&self, other: &PropertyValue) -> bool {
        self@ == other@
    }
}

/// A `Property` denotes a key/value pair associated with an element. A
/// property is like an option in that its value can be absent: a property
/// with no value is a valid, addressable "absent" property, not an error.
/// The key is always a non-empty string; the owning element is referenced
/// non-owningly, by its identifier.
pub struct Property {
    key: String,
    value: Option<PropertyValue>,
    element: String,
}

/// Mathematical model of a property: its key, its optional value, and the
/// identifier of its owning element.
pub ghost struct PropertyView {
    pub key: Seq<char>,
    pub value: Option<ValueView>,
    pub element: Seq<char>,
}

impl View for Property {
    type V = PropertyView;

    closed spec fn view(&self) -> PropertyView {
        PropertyView { key: self.key@, value: opt_value_view(self.value), element: self.element@ }
    }
}

impl Property {
    /// A property is well formed when its key is non-empty.
    pub open spec fn wf(self) -> bool {
        self@.key.len() > 0
    }

    /// Creates a property bound to the element with identifier `element`.
    pub fn new(key: String, value: Option<PropertyValue>, element: String) -> (r: Property)
        requires
            key@.len() > 0,
        ensures
            r@ == (PropertyView { key: key@, value: opt_value_view(value), element: element@ }),
            r.wf(),
    {
        Property { key, value, element }
    }

    /// An equal copy of this property.
    pub fn duplicate(&self) -> (r: Property)
        ensures
            r@ == self@,
    {
        let value = match &self.value {
            Some(v) => Some(v.duplicate()),
            None => None,
        };
        Property { key: self.key.clone(), value, element: self.element.clone() }
    }

    /// The key of the property; total.
    pub fn key(&self) -> (r: String)
        ensures
            r@ == self@.key,
    {
        self.key.clone()
    }

    /// The value of the property if present, `None` otherwise; never fails.
    pub fn value(&self) -> (r: Option<PropertyValue>)
        ensures
            opt_value_view(r) == self@.value,
    {
        match &self.value {
            Some(v) => Some(v.duplicate()),
            None => None,
        }
    }

    /// Whether the property carries a value.
    pub fn is_present(&self) -> (r: bool)
        ensures
            r == (self@.value is Some),
    {
        self.value.is_some()
    }

    /// If the property is present, acts on the value with `func`; a no-op
    /// otherwise. When the value is present, the callback's postcondition
    /// holds of that value.
    pub fn if_present<F: Fn(PropertyValue)>(&self, func: F)
        requires
            forall|v: PropertyValue| self@.value == Some(v@) ==> call_requires(func, (v,)),
        ensures
            self@.value matches Some(v) ==> exists|d: PropertyValue|
                d@ == v && call_ensures(func, (d,), ()),
    {
        match &self.value {
            Some(v) => {
                let d = v.duplicate();
                let ghost dd = d;
                proof {
                    assert(self@.value == Some(d@));
                }
                func(d);
                proof {
                    assert(dd@ == self@.value.unwrap() && call_ensures(func, (dd,), ()));
                }
            },
            None => {},
        }
    }

    /// The value if present, else the supplied default; total.
    pub fn or_else(&self, other_value: PropertyValue) -> (r: PropertyValue)
        ensures
            self@.value matches Some(v) ==> r@ == v,
            self@.value is None ==> r == other_value,
    {
        match &self.value {
            Some(v) => v.duplicate(),
            None => other_value,
        }
    }

    /// The value if present, else a default computed by `func`; the
    /// supplier is not invoked when the value is present.
    pub fn or_else_get<F: Fn() -> PropertyValue>(&self, func: F) -> (r: PropertyValue)
        requires
            self@.value is None ==> call_requires(func, ()),
        ensures
            self@.value matches Some(v) ==> r@ == v,
            self@.value is None ==> call_ensures(func, (), r),
    {
        match &self.value {
            Some(v) => v.duplicate(),
            None => func(),
        }
    }

    /// The value if present; fails with `PropertyAbsent` if not. Callers
    /// who cannot establish presence should use `or_else` or `or_else_get`
    /// instead.
    pub fn unwrap(&self) -> (r: Result<PropertyValue, GraphError>)
        ensures
            match self@.value {
                Some(v) => r matches Ok(pv) && pv@ == v,
                None => r matches Err(e) && e == GraphError::PropertyAbsent,
            },
    {
        match &self.value {
            Some(v) => Ok(v.duplicate()),
            None => Err(GraphError::PropertyAbsent),
        }
    }

    /// The identifier of the owning element: a non-owning handle, to be
    /// resolved against the owning store.
    pub fn element(&self) -> (r: String)
        ensures
            r@ == self@.element,
    {
        self.element.clone()
    }

    /// Requests removal of the value from this property handle: afterwards
    /// the property is absent. Idempotent: removing an already-absent
    /// property is a no-op. Detaching the stored slot itself is the owning
    /// element's operation; this handle's back-reference is non-owning.
    pub fn remove(&mut self)
        ensures
            final(self)@.key == old(self)@.key,
            final(self)@.element == old(self)@.element,
            final(self)@.value is None,
    {
        self.value = None;
    }
}

} // verus!
