use vstd::prelude::*;

use vstd::pervasive::VecAdditionalExecFns;

use crate::errors::GraphError;
use crate::property::{Property, PropertyValue, PropertyView, ValueView};
use crate::text::str_eq;

verus! {

/// Mathematical model of an element: its identity, label, owning graph,
/// lifecycle state, and stored properties in storage order.
pub ghost struct ElementView {
    pub id: Seq<char>,
    pub label: Seq<char>,
    pub graph: Seq<char>,
    pub removed: bool,
    pub props: Seq<PropertyView>,
}

/// At most one stored property per key.
pub open spec fn distinct_keys(props: Seq<PropertyView>) -> bool {
    forall|i: int, j: int| 0 <= i < j < props.len() ==> props[i].key != props[j].key
}

/// The first stored property with key `k`, scanning in storage order.
pub open spec fn lookup(props: Seq<PropertyView>, k: Seq<char>) -> Option<PropertyView>
    decreases props.len(),
{
    if props.len() == 0 {
        None
    } else if props[0].key == k {
        Some(props[0])
    } else {
        lookup(props.skip(1), k)
    }
}

/// `props` with its first entry for `pv.key` replaced by `pv`, or `pv`
/// appended when no entry has that key.
pub open spec fn update_props(props: Seq<PropertyView>, pv: PropertyView) -> Seq<PropertyView>
    decreases props.len(),
{
    if props.len() == 0 {
        seq![pv]
    } else if props[0].key == pv.key {
        seq![pv] + props.skip(1)
    } else {
        seq![props[0]] + update_props(props.skip(1), pv)
    }
}

/// How many stored properties carry key `k`.
pub open spec fn key_count(props: Seq<PropertyView>, k: Seq<char>) -> nat
    decreases props.len(),
{
    if props.len() == 0 {
        0
    } else if props[0].key == k {
        1 + key_count(props.skip(1), k)
    } else {
        key_count(props.skip(1), k)
    }
}

/// The keys of the properties that carry a present value, in storage
/// order.
pub open spec fn present_keys(props: Seq<PropertyView>) -> Seq<Seq<char>>
    decreases props.len(),
{
    if props.len() == 0 {
        Seq::empty()
    } else if props.last().value is Some {
        present_keys(props.drop_last()).push(props.last().key)
    } else {
        present_keys(props.drop_last())
    }
}

/// The stored properties whose key is among `keys`, in storage order;
/// with an empty filter, all stored properties.
pub open spec fn selected(props: Seq<PropertyView>, keys: Seq<Seq<char>>) -> Seq<PropertyView>
    decreases props.len(),
{
    if props.len() == 0 {
        Seq::empty()
    } else if keys.len() == 0 || keys.contains(props.last().key) {
        selected(props.drop_last(), keys).push(props.last())
    } else {
        selected(props.drop_last(), keys)
    }
}

/// Every property in the sequence carries a present value.
pub open spec fn all_present(props: Seq<PropertyView>) -> bool {
    forall|i: int| 0 <= i < props.len() ==> (#[trigger] props[i]).value is Some
}

/// The present values of the properties, in order.
pub open spec fn values_of(props: Seq<PropertyView>) -> Seq<ValueView> {
    props.map_values(|p: PropertyView| p.value.unwrap())
}

/// The views of a key filter.
pub open spec fn key_views(keys: Seq<&str>) -> Seq<Seq<char>> {
    keys.map_values(|s: &str| s@)
}

impl ElementView {
    /// Well-formedness: a non-empty label, at most one property per key,
    /// every key non-empty and every property bound back to this element,
    /// and no properties left once the element is removed.
    pub open spec fn wf(self) -> bool {
        &&& self.label.len() > 0
        &&& distinct_keys(self.props)
        &&& forall|i: int|
            0 <= i < self.props.len() ==> (#[trigger] self.props[i]).key.len() > 0
                && self.props[i].element == self.id
        &&& self.removed ==> self.props.len() == 0
    }

    /// Whether some property is stored under `k`, present or absent.
    pub open spec fn has_key(self, k: Seq<char>) -> bool {
        lookup(self.props, k) is Some
    }

    /// Whether a property with a present value is stored under `k`.
    pub open spec fn has_present_key(self, k: Seq<char>) -> bool {
        lookup(self.props, k) matches Some(p) && p.value is Some
    }

    /// The present value stored under `k`, if any.
    pub open spec fn value_of(self, k: Seq<char>) -> Option<ValueView> {
        match lookup(self.props, k) {
            Some(p) => p.value,
            None => None,
        }
    }

    /// The element after upserting value `v` under key `k`.
    pub open spec fn with_set(self, k: Seq<char>, v: ValueView) -> ElementView {
        ElementView {
            id: self.id,
            label: self.label,
            graph: self.graph,
            removed: self.removed,
            props: update_props(
                self.props,
                PropertyView { key: k, value: Some(v), element: self.id },
            ),
        }
    }
}

/// `lookup` finds the entry at the first index whose key matches.
proof fn lemma_lookup_at_index(props: Seq<PropertyView>, k: Seq<char>, i: int)
    requires
        0 <= i < props.len(),
        props[i].key == k,
        forall|j: int| 0 <= j < i ==> props[j].key != k,
    ensures
        lookup(props, k) == Some(props[i]),
    decreases i,
{
    if i > 0 {
        lemma_lookup_at_index(props.skip(1), k, i - 1);
    }
}

/// With no matching key anywhere, `lookup` finds nothing.
proof fn lemma_lookup_none(props: Seq<PropertyView>, k: Seq<char>)
    requires
        forall|j: int| 0 <= j < props.len() ==> props[j].key != k,
    ensures
        lookup(props, k) is None,
    decreases props.len(),
{
    if props.len() > 0 {
        lemma_lookup_none(props.skip(1), k);
    }
}

/// `lookup` finds an entry exactly when some index carries the key.
proof fn lemma_lookup_exists(props: Seq<PropertyView>, k: Seq<char>)
    ensures
        (lookup(props, k) is Some) <==> (exists|j: int|
            0 <= j < props.len() && (#[trigger] props[j]).key == k),
    decreases props.len(),
{
    if props.len() > 0 {
        lemma_lookup_exists(props.skip(1), k);
        if props[0].key == k {
        } else {
            assert(forall|j: int|
                0 <= j < props.skip(1).len() ==> props.skip(1)[j] == props[j + 1]);
            if exists|j: int| 0 <= j < props.len() && (#[trigger] props[j]).key == k {
                let j = choose|j: int| 0 <= j < props.len() && (#[trigger] props[j]).key == k;
                assert(props.skip(1)[j - 1].key == k);
            }
        }
    }
}

/// `lookup` after `update_props`: the new entry under its own key, and the
/// old result under every other key.
proof fn lemma_lookup_update(props: Seq<PropertyView>, pv: PropertyView, k: Seq<char>)
    ensures
        lookup(update_props(props, pv), k) == if k == pv.key {
            Some(pv)
        } else {
            lookup(props, k)
        },
    decreases props.len(),
{
    let out = update_props(props, pv);
    if props.len() == 0 {
        assert(out == seq![pv]);
        assert(out[0] == pv);
        if k != pv.key {
            assert(lookup(out, k) == lookup(out.skip(1), k));
            assert(out.skip(1).len() == 0);
        }
    } else if props[0].key == pv.key {
        assert(out == seq![pv] + props.skip(1));
        assert(out[0] == pv);
        if k != pv.key {
            assert(out.skip(1) =~= props.skip(1));
            lemma_lookup_same(props, k);
        }
    } else {
        assert(out == seq![props[0]] + update_props(props.skip(1), pv));
        assert(out[0] == props[0]);
        assert(out.skip(1) =~= update_props(props.skip(1), pv));
        lemma_lookup_update(props.skip(1), pv, k);
    }
}

/// Helper: unfolding `lookup` one step when the head does not match.
proof fn lemma_lookup_same(props: Seq<PropertyView>, k: Seq<char>)
    requires
        props.len() > 0,
        props[0].key != k,
    ensures
        lookup(props, k) == lookup(props.skip(1), k),
{
}

/// When the key's first occurrence is at index `i`, `update_props`
/// replaces exactly that entry.
proof fn lemma_update_at_index(props: Seq<PropertyView>, pv: PropertyView, i: int)
    requires
        0 <= i < props.len(),
        props[i].key == pv.key,
        forall|j: int| 0 <= j < i ==> props[j].key != pv.key,
    ensures
        update_props(props, pv) =~= props.update(i, pv),
    decreases i,
{
    if i == 0 {
        assert(update_props(props, pv) == seq![pv] + props.skip(1));
    } else {
        lemma_update_at_index(props.skip(1), pv, i - 1);
        assert(update_props(props, pv) == seq![props[0]] + update_props(props.skip(1), pv));
        assert(props.skip(1).update(i - 1, pv) =~= props.update(i, pv).skip(1));
    }
}

/// With no entry under the key, `update_props` appends the new entry.
proof fn lemma_update_push(props: Seq<PropertyView>, pv: PropertyView)
    requires
        forall|j: int| 0 <= j < props.len() ==> props[j].key != pv.key,
    ensures
        update_props(props, pv) =~= props.push(pv),
    decreases props.len(),
{
    if props.len() == 0 {
        assert(update_props(props, pv) == seq![pv]);
    } else {
        lemma_update_push(props.skip(1), pv);
        assert(update_props(props, pv) == seq![props[0]] + update_props(props.skip(1), pv));
        assert(props.skip(1).push(pv) =~= props.push(pv).skip(1));
    }
}

/// A key's count is positive exactly when some index carries it.
proof fn lemma_count_pos(props: Seq<PropertyView>, k: Seq<char>)
    ensures
        (key_count(props, k) > 0) <==> (exists|j: int|
            0 <= j < props.len() && (#[trigger] props[j]).key == k),
    decreases props.len(),
{
    if props.len() > 0 {
        lemma_count_pos(props.skip(1), k);
        if props[0].key == k {
        } else {
            if exists|j: int| 0 <= j < props.len() && (#[trigger] props[j]).key == k {
                let j = choose|j: int| 0 <= j < props.len() && (#[trigger] props[j]).key == k;
                assert(props.skip(1)[j - 1].key == k);
            }
            if key_count(props.skip(1), k) > 0 {
                let j = choose|j: int|
                    0 <= j < props.skip(1).len() && (#[trigger] props.skip(1)[j]).key == k;
                assert(props[j + 1].key == k);
            }
        }
    }
}

/// Under distinct keys, no key is stored more than once.
proof fn lemma_distinct_count(props: Seq<PropertyView>, k: Seq<char>)
    requires
        distinct_keys(props),
    ensures
        key_count(props, k) <= 1,
    decreases props.len(),
{
    if props.len() > 0 {
        assert(distinct_keys(props.skip(1))) by {
            assert(forall|j: int|
                0 <= j < props.skip(1).len() ==> props.skip(1)[j] == props[j + 1]);
        }
        lemma_distinct_count(props.skip(1), k);
        if props[0].key == k {
            assert(forall|j: int| 0 <= j < props.skip(1).len() ==> props.skip(1)[j].key != k);
            lemma_count_pos(props.skip(1), k);
        }
    }
}

/// `update_props` leaves the count at one when the key was stored, and
/// raises it from zero to one when it was not; other keys keep their
/// count.
proof fn lemma_count_update(props: Seq<PropertyView>, pv: PropertyView, k: Seq<char>)
    ensures
        key_count(update_props(props, pv), k) == if k == pv.key {
            if key_count(props, k) == 0 {
                1nat
            } else {
                key_count(props, k)
            }
        } else {
            key_count(props, k)
        },
    decreases props.len(),
{
    let out = update_props(props, pv);
    if props.len() == 0 {
        assert(out == seq![pv]);
        assert(out[0] == pv);
        assert(out.skip(1).len() == 0);
        assert(key_count(out.skip(1), k) == 0);
        assert(key_count(out, k) == if out[0].key == k {
            1 + key_count(out.skip(1), k)
        } else {
            key_count(out.skip(1), k)
        });
    } else if props[0].key == pv.key {
        assert(out == seq![pv] + props.skip(1));
        assert(out[0] == pv);
        assert(out.skip(1) =~= props.skip(1));
        assert(key_count(out, k) == if out[0].key == k {
            1 + key_count(out.skip(1), k)
        } else {
            key_count(out.skip(1), k)
        });
        assert(key_count(props, k) == if props[0].key == k {
            1 + key_count(props.skip(1), k)
        } else {
            key_count(props.skip(1), k)
        });
    } else {
        assert(out == seq![props[0]] + update_props(props.skip(1), pv));
        assert(out[0] == props[0]);
        assert(out.skip(1) =~= update_props(props.skip(1), pv));
        lemma_count_update(props.skip(1), pv, k);
        assert(key_count(out, k) == if out[0].key == k {
            1 + key_count(out.skip(1), k)
        } else {
            key_count(out.skip(1), k)
        });
        assert(key_count(props, k) == if props[0].key == k {
            1 + key_count(props.skip(1), k)
        } else {
            key_count(props.skip(1), k)
        });
    }
}

/// A key is among the present keys exactly when some index carries it
/// with a present value.
proof fn lemma_present_keys_occurrence(props: Seq<PropertyView>, k: Seq<char>)
    ensures
        present_keys(props).contains(k) <==> (exists|j: int|
            0 <= j < props.len() && (#[trigger] props[j]).key == k && props[j].value is Some),
    decreases props.len(),
{
    if props.len() > 0 {
        lemma_present_keys_occurrence(props.drop_last(), k);
        let rest = props.drop_last();
        let n = props.len() - 1;
        assert(forall|j: int| 0 <= j < n ==> rest[j] == props[j]);
        if props.last().value is Some && props.last().key == k {
            assert(present_keys(props).contains(k)) by {
                let pk = present_keys(props);
                assert(pk[pk.len() - 1] == k);
            }
            assert(props[n].key == k && props[n].value is Some);
        } else {
            if present_keys(props).contains(k) {
                let pk = present_keys(rest);
                if props.last().value is Some {
                    let i = choose|i: int|
                        0 <= i < present_keys(props).len() && present_keys(props)[i] == k;
                    assert(present_keys(props) == pk.push(props.last().key));
                    assert(pk[i] == k);
                    assert(pk.contains(k));
                } else {
                    assert(present_keys(props) == pk);
                }
            }
            if exists|j: int|
                0 <= j < props.len() && (#[trigger] props[j]).key == k && props[j].value is Some {
                let j = choose|j: int|
                    0 <= j < props.len() && (#[trigger] props[j]).key == k
                        && props[j].value is Some;
                assert(j < n);
                assert(rest[j].key == k && rest[j].value is Some);
                assert(present_keys(rest).contains(k));
                if props.last().value is Some {
                    let i = choose|i: int|
                        0 <= i < present_keys(rest).len() && present_keys(rest)[i] == k;
                    assert(present_keys(props)[i] == k);
                }
            }
        }
    }
}

/// A key that was never set is invisible: it has no stored entry, no
/// present value, and the reported key set does not contain it.
pub proof fn lemma_unset_key_invisible(e: ElementView, k: Seq<char>)
    requires
        !e.has_key(k),
    ensures
        !e.has_present_key(k),
        e.value_of(k) is None,
        !present_keys(e.props).contains(k),
{
    lemma_lookup_exists(e.props, k);
    lemma_present_keys_occurrence(e.props, k);
}

/// With at most one stored property per key, no key is reported twice:
/// the reported keys of a well-formed element form a set.
pub proof fn lemma_present_keys_distinct(props: Seq<PropertyView>)
    requires
        distinct_keys(props),
    ensures
        forall|i: int, j: int|
            0 <= i < j < present_keys(props).len() ==> present_keys(props)[i] != present_keys(
                props,
            )[j],
    decreases props.len(),
{
    if props.len() > 0 {
        let rest = props.drop_last();
        let n = props.len() - 1;
        assert(forall|j: int| 0 <= j < n ==> rest[j] == props[j]);
        assert(distinct_keys(rest));
        lemma_present_keys_distinct(rest);
        if props.last().value is Some {
            assert(!present_keys(rest).contains(props.last().key)) by {
                lemma_present_keys_occurrence(rest, props.last().key);
                if exists|j: int|
                    0 <= j < rest.len() && (#[trigger] rest[j]).key == props.last().key
                        && rest[j].value is Some {
                    let j = choose|j: int|
                        0 <= j < rest.len() && (#[trigger] rest[j]).key == props.last().key
                            && rest[j].value is Some;
                    assert(props[j].key != props[n].key);
                }
            }
            let pk = present_keys(props);
            assert(pk == present_keys(rest).push(props.last().key));
            assert(forall|i: int, j: int| 0 <= i < j < pk.len() ==> pk[i] != pk[j]) by {
                assert(forall|i: int|
                    0 <= i < pk.len() - 1 ==> pk[i] == present_keys(rest)[i]);
                assert(forall|i: int|
                    0 <= i < pk.len() - 1 ==> #[trigger] pk[i] != props.last().key) by {
                    assert(forall|i: int|
                        0 <= i < present_keys(rest).len()
                            ==> present_keys(rest).contains(#[trigger] present_keys(rest)[i]));
                }
            }
        }
    }
}

/// Read-your-writes: after upserting `v` under `k`, the element stores a
/// present value `v` under `k`, reports `k` among its keys, and every
/// other key's entry is unchanged.
pub proof fn lemma_set_then_get(e: ElementView, k: Seq<char>, v: ValueView)
    ensures
        e.with_set(k, v).value_of(k) == Some(v),
        e.with_set(k, v).has_present_key(k),
        present_keys(e.with_set(k, v).props).contains(k),
        forall|k2: Seq<char>| k2 != k ==> lookup(e.with_set(k, v).props, k2) == lookup(
            e.props,
            k2,
        ),
{
    let pv = PropertyView { key: k, value: Some(v), element: e.id };
    lemma_lookup_update(e.props, pv, k);
    assert(forall|k2: Seq<char>| k2 != k ==> lookup(update_props(e.props, pv), k2) == lookup(
        e.props,
        k2,
    )) by {
        assert forall|k2: Seq<char>| k2 != k implies lookup(update_props(e.props, pv), k2)
            == lookup(e.props, k2) by {
            lemma_lookup_update(e.props, pv, k2);
        }
    }
    let out = e.with_set(k, v).props;
    lemma_present_keys_occurrence(out, k);
    lemma_lookup_at_first(out, k);
}

/// The entry `lookup` returns sits at some index with the looked-up key.
proof fn lemma_lookup_at_first(props: Seq<PropertyView>, k: Seq<char>)
    requires
        lookup(props, k) is Some,
    ensures
        exists|j: int|
            0 <= j < props.len() && props[j] == lookup(props, k).unwrap() && (#[trigger]
            props[j]).key == k,
    decreases props.len(),
{
    if props.len() > 0 {
        if props[0].key == k {
            assert(props[0] == lookup(props, k).unwrap() && props[0].key == k);
        } else {
            lemma_lookup_at_first(props.skip(1), k);
            let j = choose|j: int|
                0 <= j < props.skip(1).len() && props.skip(1)[j] == lookup(props.skip(1), k).unwrap()
                    && (#[trigger] props.skip(1)[j]).key == k;
            assert(props[j + 1] == lookup(props, k).unwrap() && props[j + 1].key == k);
        }
    }
}

/// An `Element` is the base for both vertices and edges. An element has an
/// identifier unique within its element kind, a non-empty categorizing
/// label, a back-reference to its owning graph (non-owning: an identifier
/// to be resolved against the owning store), and a collection of keyed
/// properties, at most one per key.
pub struct Element {
    id: String,
    label: String,
    graph: String,
    removed: bool,
    props: Vec<Property>,
}

impl View for Element {
    type V = ElementView;

    closed spec fn view(&self) -> ElementView {
        ElementView {
            id: self.id@,
            label: self.label@,
            graph: self.graph@,
            removed: self.removed,
            props: self.props@.map_values(|p: Property| p@),
        }
    }
}

impl Element {
    /// Creates a live element with no properties.
    pub fn new(id: String, label: String, graph: String) -> (r: Element)
        requires
            label@.len() > 0,
        ensures
            r@ == (ElementView {
                id: id@,
                label: label@,
                graph: graph@,
                removed: false,
                props: Seq::empty(),
            }),
            r@.wf(),
    {
        let r = Element { id, label, graph, removed: false, props: Vec::new() };
        proof {
            assert(r@.props =~= Seq::<PropertyView>::empty());
        }
        r
    }

    /// The unique identifier of the element; total.
    pub fn id(&self) -> (r: String)
        ensures
            r@ == self@.id,
    {
        self.id.clone()
    }

    /// The categorizing label of the element; total.
    pub fn label(&self) -> (r: String)
        ensures
            r@ == self@.label,
    {
        self.label.clone()
    }

    /// The identifier of the graph this element is within; total. The
    /// back-reference is non-owning: it scopes the element, nothing more.
    pub fn graph(&self) -> (r: String)
        ensures
            r@ == self@.graph,
    {
        self.graph.clone()
    }

    /// Whether the element has been removed; total. Callers holding a
    /// possibly-stale handle can test this before other operations.
    pub fn is_removed(&self) -> (r: bool)
        ensures
            r == self@.removed,
    {
        self.removed
    }

    /// Detaches the element (and transitively its properties) from the
    /// owning graph: the element enters the terminal Removed state.
    /// Idempotent.
    pub fn remove(&mut self)
        ensures
            final(self)@ == (ElementView {
                id: old(self)@.id,
                label: old(self)@.label,
                graph: old(self)@.graph,
                removed: true,
                props: Seq::empty(),
            }),
            old(self)@.wf() ==> final(self)@.wf(),
    {
        self.removed = true;
        self.props.clear();
        proof {
            assert(self@.props =~= Seq::<PropertyView>::empty());
        }
    }

    /// The keys of the properties with a present value, each once, in
    /// storage order. Fails with `ElementRemoved` on a removed element.
    pub fn keys(&self) -> (r: Result<Vec<String>, GraphError>)
        ensures
            self@.removed ==> (r matches Err(e) && e == GraphError::ElementRemoved),
            !self@.removed ==> (r matches Ok(ks) && ks@.map_values(|s: String| s@)
                == present_keys(self@.props)),
    {
        if self.removed {
            return Err(GraphError::ElementRemoved);
        }
        let n = self.props.len();
        let mut out: Vec<String> = Vec::new();
        proof {
            assert(out@.map_values(|s: String| s@) =~= present_keys(self@.props.take(0)));
        }
        let mut i: usize = 0;
        while i < n
            invariant
                n == self.props@.len(),
                i <= n,
                self@.props.len() == n,
                out@.map_values(|s: String| s@) == present_keys(self@.props.take(i as int)),
            decreases n - i,
        {
            let p = &self.props[i];
            let ghost prev = out@.map_values(|s: String| s@);
            if p.is_present() {
                out.push(p.key());
            }
            proof {
                assert(self@.props.take(i + 1).drop_last() =~= self@.props.take(i as int));
                assert(self@.props.take(i + 1).last() == self@.props[i as int]);
                assert(self@.props[i as int] == p@);
                if p@.value is Some {
                    assert(out@.map_values(|s: String| s@) =~= prev.push(p@.key));
                } else {
                    assert(out@.map_values(|s: String| s@) =~= prev);
                }
            }
            i += 1;
        }
        proof {
            assert(self@.props.take(n as int) =~= self@.props);
        }
        Ok(out)
    }

    /// The property stored under `key`: found whenever the key is set,
    /// whether or not the stored value is itself present; `None` when the
    /// key was never set. Fails with `ElementRemoved` on a removed
    /// element.
    pub fn property(&self, key: &str) -> (r: Result<Option<Property>, GraphError>)
        ensures
            self@.removed ==> (r matches Err(e) && e == GraphError::ElementRemoved),
            !self@.removed && !self@.has_key(key@) ==> r == Ok::<Option<Property>, GraphError>(
                None,
            ),
            !self@.removed && self@.has_key(key@) ==> (r matches Ok(op) && op matches Some(p)
                && lookup(self@.props, key@) == Some(p@)),
    {
        if self.removed {
            return Err(GraphError::ElementRemoved);
        }
        let n = self.props.len();
        let mut i: usize = 0;
        while i < n
            invariant
                n == self.props@.len(),
                i <= n,
                self@.props.len() == n,
                !self@.removed,
                forall|j: int| 0 <= j < i ==> self@.props[j].key != key@,
            decreases n - i,
        {
            let p = &self.props[i];
            let pk = p.key();
            if str_eq(pk.as_str(), key) {
                proof {
                    assert(self@.props[i as int] == p@);
                    lemma_lookup_at_index(self@.props, key@, i as int);
                }
                return Ok(Some(p.duplicate()));
            }
            proof {
                assert(self@.props[i as int] == p@);
            }
            i += 1;
        }
        proof {
            lemma_lookup_none(self@.props, key@);
        }
        Ok(None)
    }

    /// Upserts `value` under `key` and returns the resulting property,
    /// overwriting any prior value for that key. Fails with
    /// `ElementRemoved` on a removed element, which is left unchanged.
    pub fn set_property(&mut self, key: &str, value: PropertyValue) -> (r: Result<
        Property,
        GraphError,
    >)
        requires
            key@.len() > 0,
        ensures
            old(self)@.removed ==> (r matches Err(e) && e == GraphError::ElementRemoved)
                && final(self)@ == old(self)@,
            !old(self)@.removed ==> final(self)@ == old(self)@.with_set(key@, value@) && (
            r matches Ok(p) && p@ == (PropertyView {
                key: key@,
                value: Some(value@),
                element: old(self)@.id,
            })),
            old(self)@.wf() ==> final(self)@.wf(),
    {
        if self.removed {
            return Err(GraphError::ElementRemoved);
        }
        let stored = Property::new(key.to_owned(), Some(value), self.id.clone());
        let ret = stored.duplicate();
        let ghost pv = stored@;
        let ghost oldprops = self@.props;
        let n = self.props.len();
        let mut i: usize = 0;
        while i < n
            invariant
                n == self.props@.len(),
                i <= n,
                self@.props.len() == n,
                self@ == old(self)@,
                !old(self)@.removed,
                oldprops == old(self)@.props,
                key@.len() > 0,
                pv == (PropertyView { key: key@, value: Some(value@), element: old(self)@.id }),
                stored@ == pv,
                ret@ == pv,
                forall|j: int| 0 <= j < i ==> self@.props[j].key != key@,
            decreases n - i,
        {
            let found = {
                let p = &self.props[i];
                let pk = p.key();
                str_eq(pk.as_str(), key)
            };
            proof {
                assert(self@.props[i as int] == self.props@[i as int]@);
            }
            if found {
                proof {
                    lemma_update_at_index(oldprops, pv, i as int);
                }
                use_set(&mut self.props, i, stored);
                proof {
                    assert(self@.props =~= oldprops.update(i as int, pv));
                    assert(self@ == old(self)@.with_set(key@, value@));
                    if old(self)@.wf() {
                        assert(forall|j: int|
                            0 <= j < self@.props.len() ==> (#[trigger] self@.props[j]).key
                                == oldprops[j].key);
                        assert(distinct_keys(self@.props));
                        assert(forall|j: int|
                            0 <= j < self@.props.len() ==> (#[trigger] self@.props[j]).key.len()
                                > 0 && self@.props[j].element == self@.id);
                        assert(self@.wf());
                    }
                }
                return Ok(ret);
            }
            i += 1;
        }
        proof {
            lemma_update_push(oldprops, pv);
        }
        self.props.push(stored);
        proof {
            assert(self@.props =~= oldprops.push(pv));
            assert(self@ == old(self)@.with_set(key@, value@));
            if old(self)@.wf() {
                assert(forall|j: int|
                    0 <= j < oldprops.len() ==> (#[trigger] self@.props[j]) == oldprops[j]);
                assert(distinct_keys(self@.props));
                assert(forall|j: int|
                    0 <= j < self@.props.len() ==> (#[trigger] self@.props[j]).key.len() > 0
                        && self@.props[j].element == self@.id);
                assert(self@.wf());
            }
        }
        Ok(ret)
    }

    /// The present value stored under `key`: the property for `key`,
    /// unwrapped. Fails with `ElementRemoved` on a removed element and
    /// with `PropertyAbsent` when the key is unset or its stored value is
    /// absent.
    pub fn value(&self, key: &str) -> (r: Result<PropertyValue, GraphError>)
        ensures
            self@.removed ==> (r matches Err(e) && e == GraphError::ElementRemoved),
            !self@.removed ==> match self@.value_of(key@) {
                Some(v) => r matches Ok(pv) && pv@ == v,
                None => r matches Err(e) && e == GraphError::PropertyAbsent,
            },
    {
        match self.property(key) {
            Err(e) => Err(e),
            Ok(None) => Err(GraphError::PropertyAbsent),
            Ok(Some(p)) => p.unwrap(),
        }
    }

    /// The properties whose key is among `property_keys`, in storage
    /// order, or all properties when the filter is empty. This is the one
    /// source of truth that `property`, `value`, `values` and `keys` are
    /// defined against. Fails with `ElementRemoved` on a removed element.
    pub fn properties(&self, property_keys: Vec<&str>) -> (r: Result<Vec<Property>, GraphError>)
        ensures
            self@.removed ==> (r matches Err(e) && e == GraphError::ElementRemoved),
            !self@.removed ==> (r matches Ok(ps) && ps@.map_values(|p: Property| p@) == selected(
                self@.props,
                key_views(property_keys@),
            )),
    {
        if self.removed {
            return Err(GraphError::ElementRemoved);
        }
        let ghost kv = key_views(property_keys@);
        let n = self.props.len();
        let mut out: Vec<Property> = Vec::new();
        proof {
            assert(out@.map_values(|p: Property| p@) =~= selected(self@.props.take(0), kv));
        }
        let mut i: usize = 0;
        while i < n
            invariant
                n == self.props@.len(),
                i <= n,
                self@.props.len() == n,
                kv == key_views(property_keys@),
                out@.map_values(|p: Property| p@) == selected(self@.props.take(i as int), kv),
            decreases n - i,
        {
            let p = &self.props[i];
            let ghost prev = out@.map_values(|q: Property| q@);
            let hit = if property_keys.len() == 0 {
                true
            } else {
                let pk = p.key();
                key_in(&property_keys, pk.as_str())
            };
            if hit {
                out.push(p.duplicate());
            }
            proof {
                assert(self@.props.take(i + 1).drop_last() =~= self@.props.take(i as int));
                assert(self@.props.take(i + 1).last() == self@.props[i as int]);
                assert(self@.props[i as int] == p@);
                if hit {
                    assert(out@.map_values(|q: Property| q@) =~= prev.push(p@));
                } else {
                    assert(out@.map_values(|q: Property| q@) =~= prev);
                }
            }
            i += 1;
        }
        proof {
            assert(self@.props.take(n as int) =~= self@.props);
        }
        Ok(out)
    }

    /// The present values of the properties selected by `property_keys`,
    /// in storage order. Fails with `ElementRemoved` on a removed element
    /// and with `PropertyAbsent` when any selected property is absent.
    pub fn values(&self, property_keys: Vec<&str>) -> (r: Result<Vec<PropertyValue>, GraphError>)
        ensures
            self@.removed ==> (r matches Err(e) && e == GraphError::ElementRemoved),
            !self@.removed && all_present(selected(self@.props, key_views(property_keys@))) ==> (
            r matches Ok(vs) && vs@.map_values(|v: PropertyValue| v@) == values_of(
                selected(self@.props, key_views(property_keys@)),
            )),
            !self@.removed && !all_present(selected(self@.props, key_views(property_keys@))) ==> (
            r matches Err(e) && e == GraphError::PropertyAbsent),
    {
        if self.removed {
            return Err(GraphError::ElementRemoved);
        }
        let ghost kv = key_views(property_keys@);
        let n = self.props.len();
        let mut out: Vec<PropertyValue> = Vec::new();
        proof {
            assert(out@.map_values(|v: PropertyValue| v@) =~= values_of(
                selected(self@.props.take(0), kv),
            ));
        }
        let mut i: usize = 0;
        while i < n
            invariant
                n == self.props@.len(),
                i <= n,
                self@.props.len() == n,
                !self@.removed,
                kv == key_views(property_keys@),
                all_present(selected(self@.props.take(i as int), kv)),
                out@.map_values(|v: PropertyValue| v@) == values_of(
                    selected(self@.props.take(i as int), kv),
                ),
            decreases n - i,
        {
            let p = &self.props[i];
            proof {
                assert(self@.props[i as int] == p@);
            }
            let hit = if property_keys.len() == 0 {
                true
            } else {
                let pk = p.key();
                key_in(&property_keys, pk.as_str())
            };
            let ghost prevsel = selected(self@.props.take(i as int), kv);
            let ghost prev = out@.map_values(|v: PropertyValue| v@);
            proof {
                assert(self@.props.take(i + 1).drop_last() =~= self@.props.take(i as int));
                assert(self@.props.take(i + 1).last() == self@.props[i as int]);
            }
            if hit {
                match p.unwrap() {
                    Ok(v) => {
                        out.push(v);
                        proof {
                            assert(selected(self@.props.take(i + 1), kv) == prevsel.push(p@));
                            assert(values_of(prevsel.push(p@)) =~= values_of(prevsel).push(
                                p@.value.unwrap(),
                            ));
                            assert(out@.map_values(|v: PropertyValue| v@) =~= prev.push(
                                p@.value.unwrap(),
                            ));
                        }
                    },
                    Err(_) => {
                        proof {
                            lemma_selected_occurrence(self@.props, kv, i as int);
                            assert(!all_present(selected(self@.props, kv))) by {
                                let sel = selected(self@.props, kv);
                                let j = choose|j: int| 0 <= j < sel.len() && sel[j] == p@;
                                assert(sel[j].value is None);
                            }
                        }
                        return Err(GraphError::PropertyAbsent);
                    },
                }
            } else {
                proof {
                    assert(selected(self@.props.take(i + 1), kv) == prevsel);
                }
            }
            i += 1;
        }
        proof {
            assert(self@.props.take(n as int) =~= self@.props);
        }
        Ok(out)
    }
}

/// An entry that passes the key filter appears in the selection.
proof fn lemma_selected_occurrence(props: Seq<PropertyView>, keys: Seq<Seq<char>>, j: int)
    requires
        0 <= j < props.len(),
        keys.len() == 0 || keys.contains(props[j].key),
    ensures
        selected(props, keys).contains(props[j]),
    decreases props.len(),
{
    if props.len() > 0 {
        let rest = props.drop_last();
        if j == props.len() - 1 {
            let sel = selected(props, keys);
            assert(sel[sel.len() - 1] == props[j]);
        } else {
            assert(rest[j] == props[j]);
            lemma_selected_occurrence(rest, keys, j);
            let selr = selected(rest, keys);
            let idx = choose|idx: int| 0 <= idx < selr.len() && selr[idx] == props[j];
            if keys.len() == 0 || keys.contains(props.last().key) {
                assert(selected(props, keys)[idx] == props[j]);
            } else {
                assert(selected(props, keys)[idx] == props[j]);
            }
        }
    }
}

/// Whether the view of `key` is among the views of `keys`.
fn key_in(keys: &Vec<&str>, key: &str) -> (r: bool)
    ensures
        r == key_views(keys@).contains(key@),
{
    let n = keys.len();
    let mut i: usize = 0;
    while i < n
        invariant
            n == keys@.len(),
            i <= n,
            forall|j: int| 0 <= j < i ==> (#[trigger] keys@[j])@ != key@,
        decreases n - i,
    {
        if str_eq(keys[i], key) {
            proof {
                assert(key_views(keys@).contains(key@)) by {
                    assert(key_views(keys@)[i as int] == key@);
                }
            }
            return true;
        }
        i += 1;
    }
    proof {
        assert(forall|j: int|
            0 <= j < key_views(keys@).len() ==> #[trigger] key_views(keys@)[j] != key@);
    }
    false
}

/// Overwrites the entry of `v` at index `i`.
fn use_set(v: &mut Vec<Property>, i: usize, p: Property)
    requires
        i < old(v)@.len(),
    ensures
        final(v)@ == old(v)@.update(i as int, p),
{
    v.set(i, p);
}

/// Last write wins: upserting `k` twice leaves the second value, and a
/// well-formed element stores exactly one property under `k` afterwards.
pub proof fn lemma_set_twice_last_wins(e: ElementView, k: Seq<char>, v1: ValueView, v2: ValueView)
    ensures
        e.with_set(k, v1).with_set(k, v2).value_of(k) == Some(v2),
        e.wf() ==> key_count(e.with_set(k, v1).with_set(k, v2).props, k) == 1,
{
    let e1 = e.with_set(k, v1);
    let e2 = e1.with_set(k, v2);
    let pv1 = PropertyView { key: k, value: Some(v1), element: e.id };
    let pv2 = PropertyView { key: k, value: Some(v2), element: e1.id };
    lemma_lookup_update(e1.props, pv2, k);
    if e.wf() {
        lemma_distinct_count(e.props, k);
        lemma_count_update(e.props, pv1, k);
        lemma_count_update(e1.props, pv2, k);
    }
}

} // verus!
