//! The schema document model: a tree of schema nodes plus a table of named
//! definitions, together with its mathematical view.

use vstd::prelude::*;

verus! {

/// The primitive type a scalar schema node validates.
#[derive(Clone, Copy, Debug, PartialEq, Eq, Structural)]
pub enum ScalarKind {
    String,
    Number,
    Boolean,
    Null,
}

/// What an object node says about properties it does not list.
#[derive(Debug, PartialEq, Eq)]
pub enum AdditionalProps {
    /// `additionalProperties` set to a plain boolean.
    Allow(bool),
    /// `additionalProperties` set to a sub-schema that extra values must match.
    Schema(Box<SchemaNode>),
}

/// One node of a schema document.
#[derive(Debug, PartialEq, Eq)]
pub enum SchemaNode {
    /// A leaf validating a primitive value, with an optional format constraint.
    Scalar { kind: ScalarKind, format: Option<String> },
    /// An object with named properties, a set of required property names and
    /// an optional `additionalProperties` declaration.
    Object {
        properties: Vec<(String, SchemaNode)>,
        required: Vec<String>,
        additional: Option<AdditionalProps>,
    },
    /// An array whose items all match one schema.
    Array { items: Box<SchemaNode> },
    /// A by-name link into the document's definitions table.
    Reference { target: String },
}

/// Mathematical view of `AdditionalProps`.
pub enum AdditionalV {
    Allow(bool),
    Schema(Box<NodeV>),
}

/// Mathematical view of `SchemaNode`: names become `Seq<char>`,
/// vectors become `Seq`.
#[verifier::ext_equal]
pub enum NodeV {
    Scalar { kind: ScalarKind, format: Option<Seq<char>> },
    Object {
        properties: Seq<(Seq<char>, NodeV)>,
        required: Seq<Seq<char>>,
        additional: Option<AdditionalV>,
    },
    Array { items: Box<NodeV> },
    Reference { target: Seq<char> },
}

pub open spec fn view_additional(a: AdditionalProps) -> AdditionalV
    decreases a,
{
    match a {
        AdditionalProps::Allow(b) => AdditionalV::Allow(b),
        AdditionalProps::Schema(s) => AdditionalV::Schema(Box::new(view_node(*s))),
    }
}

/// View of a properties list: each name becomes its character sequence and
/// each node its view, in the same order.
pub open spec fn view_props(ps: Seq<(String, SchemaNode)>) -> Seq<(Seq<char>, NodeV)>
    decreases ps,
{
    if ps.len() == 0 {
        Seq::empty()
    } else {
        seq![(ps[0].0@, view_node(ps[0].1))] + view_props(ps.drop_first())
    }
}

pub open spec fn view_node(n: SchemaNode) -> NodeV
    decreases n,
{
    match n {
        SchemaNode::Scalar { kind, format } => NodeV::Scalar {
            kind,
            format: match format {
                Some(f) => Some(f@),
                None => None,
            },
        },
        SchemaNode::Object { properties, required, additional } => NodeV::Object {
            properties: view_props(properties@),
            required: Seq::new(required@.len(), |i: int| required@[i]@),
            additional: match additional {
                Some(a) => Some(view_additional(a)),
                None => None,
            },
        },
        SchemaNode::Array { items } => NodeV::Array { items: Box::new(view_node(*items)) },
        SchemaNode::Reference { target } => NodeV::Reference { target: target@ },
    }
}

/// `view_props` maps the list pointwise.
pub proof fn lemma_view_props(ps: Seq<(String, SchemaNode)>)
    ensures
        view_props(ps).len() == ps.len(),
        forall|i: int|
            0 <= i < ps.len() ==> #[trigger] view_props(ps)[i] == (ps[i].0@, view_node(ps[i].1)),
    decreases ps,
{
    if ps.len() > 0 {
        lemma_view_props(ps.drop_first());
        assert forall|i: int| 0 <= i < ps.len() implies #[trigger] view_props(ps)[i] == (
            ps[i].0@,
            view_node(ps[i].1),
        ) by {
            if i > 0 {
                assert(ps.drop_first()[i - 1] == ps[i]);
                assert(view_props(ps)[i] == view_props(ps.drop_first())[i - 1]);
            }
        }
    }
}

/// A full schema document: the inline root, the table of named definitions,
/// and the root-level metadata strings.
#[derive(Debug, PartialEq, Eq)]
pub struct SchemaDocument {
    pub root: SchemaNode,
    pub definitions: Vec<(String, SchemaNode)>,
    pub title: Option<String>,
    pub description: Option<String>,
}

/// Mathematical view of `SchemaDocument`.
#[verifier::ext_equal]
pub struct DocV {
    pub root: NodeV,
    pub definitions: Seq<(Seq<char>, NodeV)>,
    pub title: Option<Seq<char>>,
    pub description: Option<Seq<char>>,
}

impl View for SchemaDocument {
    type V = DocV;

    open spec fn view(&self) -> DocV {
        DocV {
            root: view_node(self.root),
            definitions: view_props(self.definitions@),
            title: match self.title {
                Some(t) => Some(t@),
                None => None,
            },
            description: match self.description {
                Some(d) => Some(d@),
                None => None,
            },
        }
    }
}

/// Index of the first entry of `ps` whose name is `k`; `ps.len()` if none.
pub open spec fn key_at(ps: Seq<(Seq<char>, NodeV)>, k: Seq<char>) -> int
    decreases ps.len(),
{
    if ps.len() == 0 {
        0
    } else if ps[0].0 == k {
        0
    } else {
        1 + key_at(ps.drop_first(), k)
    }
}

/// Whether some entry of `ps` is named `k`.
pub open spec fn has_key(ps: Seq<(Seq<char>, NodeV)>, k: Seq<char>) -> bool {
    key_at(ps, k) < ps.len()
}

/// The schema stored under the first entry named `k`.
pub open spec fn value_of(ps: Seq<(Seq<char>, NodeV)>, k: Seq<char>) -> NodeV {
    ps[key_at(ps, k)].1
}

/// `key_at` returns either the first index holding `k` or `ps.len()`.
pub proof fn lemma_key_at(ps: Seq<(Seq<char>, NodeV)>, k: Seq<char>)
    ensures
        0 <= key_at(ps, k) <= ps.len(),
        key_at(ps, k) < ps.len() ==> ps[key_at(ps, k)].0 == k,
        forall|i: int| 0 <= i < key_at(ps, k) ==> (#[trigger] ps[i]).0 != k,
        key_at(ps, k) == ps.len() ==> forall|i: int|
            0 <= i < ps.len() ==> (#[trigger] ps[i]).0 != k,
    decreases ps.len(),
{
    if ps.len() > 0 && ps[0].0 != k {
        lemma_key_at(ps.drop_first(), k);
        assert forall|i: int| 0 <= i < key_at(ps, k) implies (#[trigger] ps[i]).0 != k by {
            if i > 0 {
                assert(ps.drop_first()[i - 1] == ps[i]);
            }
        }
        if key_at(ps, k) == ps.len() {
            assert forall|i: int| 0 <= i < ps.len() implies (#[trigger] ps[i]).0 != k by {
                if i > 0 {
                    assert(ps.drop_first()[i - 1] == ps[i]);
                }
            }
        }
    }
}

/// Association-list update with map semantics: replace the first entry named
/// `k`, or append a fresh entry when none exists.
pub open spec fn put_entry(ps: Seq<(Seq<char>, NodeV)>, k: Seq<char>, v: NodeV) -> Seq<
    (Seq<char>, NodeV),
> {
    if has_key(ps, k) {
        ps.update(key_at(ps, k), (k, v))
    } else {
        ps.push((k, v))
    }
}

/// The names `required` of an object must all name entries of `properties`.
pub open spec fn required_covered(
    properties: Seq<(Seq<char>, NodeV)>,
    required: Seq<Seq<char>>,
) -> bool {
    forall|i: int| 0 <= i < required.len() ==> has_key(properties, #[trigger] required[i])
}

/// Recursive helper of `wf_node` over a property list.
pub open spec fn wf_props(ps: Seq<(Seq<char>, NodeV)>) -> bool
    decreases ps,
{
    if ps.len() == 0 {
        true
    } else {
        wf_node(ps[0].1) && wf_props(ps.drop_first())
    }
}

/// Well-formedness of a node: in every object anywhere in the tree,
/// `required` only names declared properties.
pub open spec fn wf_node(n: NodeV) -> bool
    decreases n,
{
    match n {
        NodeV::Scalar { .. } => true,
        NodeV::Reference { .. } => true,
        NodeV::Array { items } => wf_node(*items),
        NodeV::Object { properties, required, additional } => required_covered(
            properties,
            required,
        ) && wf_props(properties) && match additional {
            Some(AdditionalV::Schema(s)) => wf_node(*s),
            _ => true,
        },
    }
}

/// Well-formedness of a whole document.
pub open spec fn wf_doc(d: DocV) -> bool {
    wf_node(d.root) && wf_props(d.definitions)
}

/// `wf_props` holds exactly when every entry's schema is well-formed.
pub proof fn lemma_wf_props(ps: Seq<(Seq<char>, NodeV)>)
    ensures
        wf_props(ps) <==> (forall|i: int| 0 <= i < ps.len() ==> wf_node((#[trigger] ps[i]).1)),
    decreases ps.len(),
{
    if ps.len() > 0 {
        lemma_wf_props(ps.drop_first());
        assert(forall|i: int|
            1 <= i < ps.len() ==> (#[trigger] ps[i]).1 == ps.drop_first()[i - 1].1);
        if forall|i: int| 0 <= i < ps.len() ==> wf_node((#[trigger] ps[i]).1) {
            assert(forall|i: int|
                0 <= i < ps.drop_first().len() ==> wf_node(
                    (#[trigger] ps.drop_first()[i]).1,
                ));
        }
    }
}

impl View for SchemaNode {
    type V = NodeV;

    open spec fn view(&self) -> NodeV {
        view_node(*self)
    }
}


/// Lists with the same names at the same positions agree on key lookup.
pub proof fn lemma_key_at_same_keys(
    a: Seq<(Seq<char>, NodeV)>,
    b: Seq<(Seq<char>, NodeV)>,
    k: Seq<char>,
)
    requires
        a.len() == b.len(),
        forall|j: int| 0 <= j < a.len() ==> (#[trigger] a[j]).0 == b[j].0,
    ensures
        key_at(a, k) == key_at(b, k),
    decreases a.len(),
{
    if a.len() > 0 && a[0].0 != k {
        assert(forall|j: int|
            0 <= j < a.drop_first().len() ==> (#[trigger] a.drop_first()[j]).0 == a[j + 1].0
                && b.drop_first()[j].0 == b[j + 1].0);
        lemma_key_at_same_keys(a.drop_first(), b.drop_first(), k);
    }
}

/// Key lookup after appending an entry.
pub proof fn lemma_key_at_push(ps: Seq<(Seq<char>, NodeV)>, e: (Seq<char>, NodeV), k: Seq<char>)
    ensures
        has_key(ps, k) ==> key_at(ps.push(e), k) == key_at(ps, k),
        !has_key(ps, k) && e.0 == k ==> key_at(ps.push(e), k) == ps.len(),
        !has_key(ps, k) && e.0 != k ==> key_at(ps.push(e), k) == ps.len() + 1,
    decreases ps.len(),
{
    let q = ps.push(e);
    if ps.len() == 0 {
        assert(q[0] == e);
        assert(q.drop_first() =~= Seq::<(Seq<char>, NodeV)>::empty());
        if e.0 != k {
            assert(key_at(q, k) == 1 + key_at(q.drop_first(), k));
        }
    } else {
        assert(q[0] == ps[0]);
        assert(q.drop_first() =~= ps.drop_first().push(e));
        lemma_key_at_push(ps.drop_first(), e, k);
        if ps[0].0 != k {
            assert(key_at(q, k) == 1 + key_at(ps.drop_first().push(e), k));
            assert(key_at(ps, k) == 1 + key_at(ps.drop_first(), k));
        }
    }
}

/// After `put_entry`, the entered name holds the entered schema.
pub proof fn lemma_put_entry(ps: Seq<(Seq<char>, NodeV)>, k: Seq<char>, v: NodeV)
    ensures
        has_key(put_entry(ps, k, v), k),
        value_of(put_entry(ps, k, v), k) == v,
        put_entry(ps, k, v).len() == (if has_key(ps, k) {
            ps.len() as int
        } else {
            ps.len() as int + 1
        }),
{
    lemma_key_at(ps, k);
    if has_key(ps, k) {
        let i = key_at(ps, k);
        let p2 = ps.update(i, (k, v));
        assert(forall|j: int| 0 <= j < ps.len() ==> (#[trigger] ps[j]).0 == p2[j].0);
        lemma_key_at_same_keys(ps, p2, k);
    } else {
        lemma_key_at_push(ps, (k, v), k);
        assert(ps.push((k, v))[ps.len() as int] == (k, v));
    }
}

/// `put_entry` leaves every other name untouched.
pub proof fn lemma_put_entry_other(
    ps: Seq<(Seq<char>, NodeV)>,
    k2: Seq<char>,
    e: (Seq<char>, NodeV),
)
    requires
        k2 != e.0,
    ensures
        has_key(put_entry(ps, e.0, e.1), k2) == has_key(ps, k2),
        has_key(ps, k2) ==> value_of(put_entry(ps, e.0, e.1), k2) == value_of(ps, k2),
{
    let k = e.0;
    let v = e.1;
    lemma_key_at(ps, k);
    lemma_key_at(ps, k2);
    if has_key(ps, k) {
        let i = key_at(ps, k);
        let p2 = ps.update(i, (k, v));
        assert(forall|j: int| 0 <= j < ps.len() ==> (#[trigger] ps[j]).0 == p2[j].0);
        lemma_key_at_same_keys(ps, p2, k2);
        if has_key(ps, k2) {
            assert(ps[key_at(ps, k2)].0 == k2);
            assert(key_at(ps, k2) != i);
        }
        assert(put_entry(ps, e.0, e.1) == p2);
    } else {
        lemma_key_at_push(ps, (k, v), k2);
        if has_key(ps, k2) {
            assert(ps.push((k, v))[key_at(ps, k2)] == ps[key_at(ps, k2)]);
        }
    }
}


/// The set of names that a definitions table defines.
pub open spec fn def_names(defs: Seq<(Seq<char>, NodeV)>) -> Set<Seq<char>> {
    Set::new(|k: Seq<char>| has_key(defs, k))
}

/// Recursive helper of `refs_resolve` over a property list.
pub open spec fn refs_resolve_props(ps: Seq<(Seq<char>, NodeV)>, names: Set<Seq<char>>) -> bool
    decreases ps,
{
    if ps.len() == 0 {
        true
    } else {
        refs_resolve(ps[0].1, names) && refs_resolve_props(ps.drop_first(), names)
    }
}

/// Every reference anywhere in the tree points at a defined name.
pub open spec fn refs_resolve(n: NodeV, names: Set<Seq<char>>) -> bool
    decreases n,
{
    match n {
        NodeV::Scalar { .. } => true,
        NodeV::Reference { target } => names.contains(target),
        NodeV::Array { items } => refs_resolve(*items, names),
        NodeV::Object { properties, additional, .. } => refs_resolve_props(properties, names)
            && match additional {
            Some(AdditionalV::Schema(s)) => refs_resolve(*s, names),
            _ => true,
        },
    }
}

/// No dangling reference anywhere in the document.
pub open spec fn refs_ok(d: DocV) -> bool {
    refs_resolve(d.root, def_names(d.definitions)) && refs_resolve_props(
        d.definitions,
        def_names(d.definitions),
    )
}

/// `refs_resolve_props` holds exactly when every entry's schema resolves.
pub proof fn lemma_refs_resolve_props(ps: Seq<(Seq<char>, NodeV)>, names: Set<Seq<char>>)
    ensures
        refs_resolve_props(ps, names) <==> (forall|i: int|
            0 <= i < ps.len() ==> refs_resolve((#[trigger] ps[i]).1, names)),
    decreases ps.len(),
{
    if ps.len() > 0 {
        lemma_refs_resolve_props(ps.drop_first(), names);
        assert(forall|i: int|
            1 <= i < ps.len() ==> (#[trigger] ps[i]).1 == ps.drop_first()[i - 1].1);
        if forall|i: int| 0 <= i < ps.len() ==> refs_resolve((#[trigger] ps[i]).1, names) {
            assert(forall|i: int|
                0 <= i < ps.drop_first().len() ==> refs_resolve(
                    (#[trigger] ps.drop_first()[i]).1,
                    names,
                ));
        }
    }
}

/// Tables with the same names at the same positions define the same name set.
pub proof fn lemma_def_names_same_keys(
    a: Seq<(Seq<char>, NodeV)>,
    b: Seq<(Seq<char>, NodeV)>,
)
    requires
        a.len() == b.len(),
        forall|j: int| 0 <= j < a.len() ==> (#[trigger] a[j]).0 == b[j].0,
    ensures
        def_names(a) == def_names(b),
{
    assert forall|k: Seq<char>| has_key(a, k) implies has_key(b, k) by {
        lemma_key_at_same_keys(a, b, k);
    }
    assert forall|k: Seq<char>| has_key(b, k) implies has_key(a, k) by {
        lemma_key_at_same_keys(a, b, k);
    }
    assert(def_names(a) =~= def_names(b));
}
} // verus!
