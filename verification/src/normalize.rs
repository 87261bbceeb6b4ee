//! The strictness normalizer: a depth-first pass that closes every
//! object-shaped node that has not already opted out, by setting its
//! `additionalProperties` declaration to `false`.
//!
//! A pre-set `additionalProperties` — whether a boolean or a sub-schema — is
//! treated as intentional and left whole: the pass neither overwrites it nor
//! descends into it.

use vstd::prelude::*;

use crate::schema::AdditionalProps;
use crate::schema::AdditionalV;
use crate::schema::DocV;
use crate::schema::NodeV;
use crate::schema::SchemaDocument;
use crate::schema::SchemaNode;
use crate::schema::def_names;
use crate::schema::has_key;
use crate::schema::lemma_key_at_same_keys;
use crate::schema::lemma_def_names_same_keys;
use crate::schema::lemma_view_props;
use crate::schema::refs_ok;
use crate::schema::refs_resolve;
use crate::schema::refs_resolve_props;
use crate::schema::view_additional;
use crate::schema::view_props;
use crate::schema::wf_doc;
use crate::schema::wf_node;
use crate::schema::wf_props;

verus! {

/// Recursive helper of `norm` over a property list.
pub open spec fn norm_props(ps: Seq<(Seq<char>, NodeV)>) -> Seq<(Seq<char>, NodeV)>
    decreases ps,
{
    if ps.len() == 0 {
        Seq::empty()
    } else {
        seq![(ps[0].0, norm(ps[0].1))] + norm_props(ps.drop_first())
    }
}

/// What normalization does to one node: every object keeps its properties
/// (each normalized in place) and its required set, and gains
/// `additionalProperties: false` unless the declaration was already present;
/// arrays recurse into their item schema; leaves are untouched.
pub open spec fn norm(n: NodeV) -> NodeV
    decreases n,
{
    match n {
        NodeV::Scalar { .. } => n,
        NodeV::Reference { .. } => n,
        NodeV::Array { items } => NodeV::Array { items: Box::new(norm(*items)) },
        NodeV::Object { properties, required, additional } => NodeV::Object {
            properties: norm_props(properties),
            required,
            additional: match additional {
                Some(a) => Some(a),
                None => Some(AdditionalV::Allow(false)),
            },
        },
    }
}

/// What normalization does to a document: the inline root and every
/// definition are normalized; metadata is untouched.
pub open spec fn norm_doc(d: DocV) -> DocV {
    DocV {
        root: norm(d.root),
        definitions: norm_props(d.definitions),
        title: d.title,
        description: d.description,
    }
}

/// `norm_props` maps the list pointwise.
pub proof fn lemma_norm_props(ps: Seq<(Seq<char>, NodeV)>)
    ensures
        norm_props(ps).len() == ps.len(),
        forall|i: int|
            0 <= i < ps.len() ==> #[trigger] norm_props(ps)[i] == (ps[i].0, norm(ps[i].1)),
    decreases ps,
{
    if ps.len() > 0 {
        lemma_norm_props(ps.drop_first());
        assert forall|i: int| 0 <= i < ps.len() implies #[trigger] norm_props(ps)[i] == (
            ps[i].0,
            norm(ps[i].1),
        ) by {
            if i > 0 {
                assert(ps.drop_first()[i - 1] == ps[i]);
                assert(norm_props(ps)[i] == norm_props(ps.drop_first())[i - 1]);
            }
        }
    }
}

/// Normalize one schema node, returning the rewritten node.
pub fn normalize(n: &SchemaNode) -> (r: SchemaNode)
    ensures
        r@ == norm(n@),
    decreases *n,
{
    match n {
        SchemaNode::Scalar { kind, format } => SchemaNode::Scalar {
            kind: *kind,
            format: match format {
                Some(f) => Some(f.clone()),
                None => None,
            },
        },
        SchemaNode::Reference { target } => SchemaNode::Reference { target: target.clone() },
        SchemaNode::Array { items } => {
            let inner = normalize(items);
            SchemaNode::Array { items: Box::new(inner) }
        },
        SchemaNode::Object { properties, required, additional } => {
            let out = normalize_props(properties);
            let new_required = copy_names(required);
            let new_additional = match additional {
                Some(a) => Some(copy_additional(a)),
                None => Some(AdditionalProps::Allow(false)),
            };
            let r = SchemaNode::Object {
                properties: out,
                required: new_required,
                additional: new_additional,
            };
            proof {
                if *additional is Some {
                    assert(r@->additional == Some(view_additional(new_additional->0)));
                }
                assert(r@ =~= norm(n@));
            }
            r
        },
    }
}

/// Normalize every schema in a property list, keeping names and order.
fn normalize_props(properties: &Vec<(String, SchemaNode)>) -> (out: Vec<(String, SchemaNode)>)
    ensures
        view_props(out@) == norm_props(view_props(properties@)),
    decreases *properties,
{
    let mut out: Vec<(String, SchemaNode)> = Vec::new();
    let mut i: usize = 0;
    while i < properties.len()
        invariant
            i <= properties@.len(),
            out@.len() == i,
            forall|j: int|
                0 <= j < i ==> (#[trigger] out@[j]).0 == properties@[j].0 && out@[j].1@ == norm(
                    properties@[j].1@,
                ),
        decreases properties@.len() - i,
    {
        let name = properties[i].0.clone();
        proof {
            assert(decreases_to!(*properties => properties[i as int]));
            assert(decreases_to!(properties[i as int] => properties[i as int].1));
        }
        let rewritten = normalize(&properties[i].1);
        out.push((name, rewritten));
        i = i + 1;
    }
    proof {
        lemma_view_props(out@);
        lemma_view_props(properties@);
        lemma_norm_props(view_props(properties@));
        assert(view_props(out@) =~= norm_props(view_props(properties@)));
    }
    out
}

/// Copy a list of names.
fn copy_names(names: &Vec<String>) -> (out: Vec<String>)
    ensures
        out@ == names@,
{
    let mut out: Vec<String> = Vec::new();
    let mut i: usize = 0;
    while i < names.len()
        invariant
            i <= names@.len(),
            out@ == names@.subrange(0, i as int),
        decreases names@.len() - i,
    {
        out.push(names[i].clone());
        proof {
            assert(out@ =~= names@.subrange(0, i + 1 as int));
        }
        i = i + 1;
    }
    proof {
        assert(out@ =~= names@);
    }
    out
}

/// Structural copy of a schema node: the copy has the same view.
pub fn duplicate(n: &SchemaNode) -> (r: SchemaNode)
    ensures
        r@ == n@,
    decreases *n,
{
    match n {
        SchemaNode::Scalar { kind, format } => SchemaNode::Scalar {
            kind: *kind,
            format: match format {
                Some(f) => Some(f.clone()),
                None => None,
            },
        },
        SchemaNode::Reference { target } => SchemaNode::Reference { target: target.clone() },
        SchemaNode::Array { items } => {
            let inner = duplicate(items);
            SchemaNode::Array { items: Box::new(inner) }
        },
        SchemaNode::Object { properties, required, additional } => {
            let props = duplicate_props(properties);
            let new_required = copy_names(required);
            let new_additional = match additional {
                Some(a) => Some(copy_additional(a)),
                None => None,
            };
            SchemaNode::Object { properties: props, required: new_required, additional: new_additional }
        },
    }
}

/// Structural copy of a property list: the copy has the same view.
pub fn duplicate_props(properties: &Vec<(String, SchemaNode)>) -> (out: Vec<(String, SchemaNode)>)
    ensures
        view_props(out@) == view_props(properties@),
    decreases *properties,
{
    let mut out: Vec<(String, SchemaNode)> = Vec::new();
    let mut i: usize = 0;
    while i < properties.len()
        invariant
            i <= properties@.len(),
            out@.len() == i,
            forall|j: int|
                0 <= j < i ==> (#[trigger] out@[j]).0 == properties@[j].0 && out@[j].1@
                    == properties@[j].1@,
        decreases properties@.len() - i,
    {
        let name = properties[i].0.clone();
        proof {
            assert(decreases_to!(*properties => properties[i as int]));
            assert(decreases_to!(properties[i as int] => properties[i as int].1));
        }
        let copy = duplicate(&properties[i].1);
        out.push((name, copy));
        i = i + 1;
    }
    proof {
        lemma_view_props(out@);
        lemma_view_props(properties@);
        assert(view_props(out@) =~= view_props(properties@));
    }
    out
}

/// Structural copy of an `additionalProperties` declaration.
fn copy_additional(a: &AdditionalProps) -> (r: AdditionalProps)
    ensures
        view_additional(r) == view_additional(*a),
    decreases *a,
{
    match a {
        AdditionalProps::Allow(b) => AdditionalProps::Allow(*b),
        AdditionalProps::Schema(s) => {
            let copy = duplicate(s);
            AdditionalProps::Schema(Box::new(copy))
        },
    }
}

/// Normalize a whole document: the inline root and every definition.
pub fn normalize_document(doc: &SchemaDocument) -> (r: SchemaDocument)
    ensures
        r@ == norm_doc(doc@),
{
    let new_root = normalize(&doc.root);
    let new_definitions = normalize_props(&doc.definitions);
    let title = match &doc.title {
        Some(t) => Some(t.clone()),
        None => None,
    };
    let description = match &doc.description {
        Some(d) => Some(d.clone()),
        None => None,
    };
    SchemaDocument { root: new_root, definitions: new_definitions, title, description }
}

/// Recursive helper of `closed` over a property list.
pub open spec fn closed_props(ps: Seq<(Seq<char>, NodeV)>) -> bool
    decreases ps,
{
    if ps.len() == 0 {
        true
    } else {
        closed(ps[0].1) && closed_props(ps.drop_first())
    }
}

/// Closure: every object-shaped node reachable through properties or array
/// items carries an `additionalProperties` declaration.
pub open spec fn closed(n: NodeV) -> bool
    decreases n,
{
    match n {
        NodeV::Scalar { .. } => true,
        NodeV::Reference { .. } => true,
        NodeV::Array { items } => closed(*items),
        NodeV::Object { properties, additional, .. } => additional is Some && closed_props(
            properties,
        ),
    }
}

/// Closure over a whole document: the inline root and every definition.
pub open spec fn closed_doc(d: DocV) -> bool {
    closed(d.root) && closed_props(d.definitions)
}

/// Normalizing twice is the same as normalizing once.
pub proof fn lemma_norm_idempotent(n: NodeV)
    ensures
        norm(norm(n)) == norm(n),
    decreases n,
{
    match n {
        NodeV::Scalar { .. } => {},
        NodeV::Reference { .. } => {},
        NodeV::Array { items } => {
            lemma_norm_idempotent(*items);
            assert(norm(norm(n)) =~= norm(n));
        },
        NodeV::Object { properties, .. } => {
            lemma_norm_props_idempotent(properties);
            assert(norm(norm(n)) =~= norm(n));
        },
    }
}

/// Idempotence of normalization over a property list.
pub proof fn lemma_norm_props_idempotent(ps: Seq<(Seq<char>, NodeV)>)
    ensures
        norm_props(norm_props(ps)) == norm_props(ps),
    decreases ps,
{
    if ps.len() == 0 {
        assert(norm_props(norm_props(ps)) =~= norm_props(ps));
    } else {
        lemma_norm_idempotent(ps[0].1);
        lemma_norm_props_idempotent(ps.drop_first());
        let x = norm_props(ps);
        assert(x[0] == (ps[0].0, norm(ps[0].1)));
        assert(x.drop_first() =~= norm_props(ps.drop_first()));
        assert(norm_props(x) =~= x);
    }
}

/// Idempotence of normalization over a whole document.
pub proof fn lemma_norm_doc_idempotent(d: DocV)
    ensures
        norm_doc(norm_doc(d)) == norm_doc(d),
{
    lemma_norm_idempotent(d.root);
    lemma_norm_props_idempotent(d.definitions);
    assert(norm_doc(norm_doc(d)) =~= norm_doc(d));
}

/// After normalization every reachable object-shaped node carries an
/// `additionalProperties` declaration.
pub proof fn lemma_norm_closed(n: NodeV)
    ensures
        closed(norm(n)),
    decreases n,
{
    match n {
        NodeV::Scalar { .. } => {},
        NodeV::Reference { .. } => {},
        NodeV::Array { items } => {
            lemma_norm_closed(*items);
        },
        NodeV::Object { properties, .. } => {
            lemma_norm_props_closed(properties);
        },
    }
}

/// Closure of a normalized property list.
pub proof fn lemma_norm_props_closed(ps: Seq<(Seq<char>, NodeV)>)
    ensures
        closed_props(norm_props(ps)),
    decreases ps,
{
    if ps.len() > 0 {
        lemma_norm_closed(ps[0].1);
        lemma_norm_props_closed(ps.drop_first());
        let x = norm_props(ps);
        assert(x[0] == (ps[0].0, norm(ps[0].1)));
        assert(x.drop_first() =~= norm_props(ps.drop_first()));
    }
}

/// Closure of a normalized document.
pub proof fn lemma_norm_doc_closed(d: DocV)
    ensures
        closed_doc(norm_doc(d)),
{
    lemma_norm_closed(d.root);
    lemma_norm_props_closed(d.definitions);
}

/// Non-destructive opt-out: normalization never overwrites a pre-set
/// `additionalProperties` declaration.
pub proof fn lemma_norm_keeps_preset_additional(n: NodeV)
    requires
        n is Object,
        n->additional is Some,
    ensures
        norm(n)->additional == n->additional,
{
}

/// Non-destructive opt-out, map-like case: an object node whose
/// `additionalProperties` is pre-set and which declares no properties of its
/// own — the shape of a map allowing arbitrary keys — is left untouched.
pub proof fn lemma_norm_preset_opt_out(n: NodeV)
    requires
        n is Object,
        n->additional is Some,
        n->properties.len() == 0,
    ensures
        norm(n) == n,
{
    assert(norm_props(n->properties) =~= n->properties);
    assert(norm(n) =~= n);
}


/// Normalization preserves well-formedness: property names are kept, so a
/// required set that named declared properties still does.
pub proof fn lemma_norm_wf(n: NodeV)
    requires
        wf_node(n),
    ensures
        wf_node(norm(n)),
    decreases n,
{
    match n {
        NodeV::Scalar { .. } => {},
        NodeV::Reference { .. } => {},
        NodeV::Array { items } => {
            lemma_norm_wf(*items);
        },
        NodeV::Object { properties, required, .. } => {
            lemma_norm_props_wf(properties);
            lemma_norm_props(properties);
            assert forall|i: int| 0 <= i < required.len() implies has_key(
                norm_props(properties),
                #[trigger] required[i],
            ) by {
                assert(has_key(properties, required[i]));
                lemma_key_at_same_keys(properties, norm_props(properties), required[i]);
            }
        },
    }
}

/// Well-formedness of a normalized property list.
pub proof fn lemma_norm_props_wf(ps: Seq<(Seq<char>, NodeV)>)
    requires
        wf_props(ps),
    ensures
        wf_props(norm_props(ps)),
    decreases ps,
{
    if ps.len() > 0 {
        lemma_norm_wf(ps[0].1);
        lemma_norm_props_wf(ps.drop_first());
        let x = norm_props(ps);
        assert(x[0] == (ps[0].0, norm(ps[0].1)));
        assert(x.drop_first() =~= norm_props(ps.drop_first()));
    }
}

/// Well-formedness of a normalized document.
pub proof fn lemma_norm_doc_wf(d: DocV)
    requires
        wf_doc(d),
    ensures
        wf_doc(norm_doc(d)),
{
    lemma_norm_wf(d.root);
    lemma_norm_props_wf(d.definitions);
}

/// Normalization resolves the same references: none are added or retargeted.
pub proof fn lemma_norm_refs(n: NodeV, names: Set<Seq<char>>)
    requires
        refs_resolve(n, names),
    ensures
        refs_resolve(norm(n), names),
    decreases n,
{
    match n {
        NodeV::Scalar { .. } => {},
        NodeV::Reference { .. } => {},
        NodeV::Array { items } => {
            lemma_norm_refs(*items, names);
        },
        NodeV::Object { properties, .. } => {
            lemma_norm_props_refs(properties, names);
        },
    }
}

/// Reference resolution of a normalized property list.
pub proof fn lemma_norm_props_refs(ps: Seq<(Seq<char>, NodeV)>, names: Set<Seq<char>>)
    requires
        refs_resolve_props(ps, names),
    ensures
        refs_resolve_props(norm_props(ps), names),
    decreases ps,
{
    if ps.len() > 0 {
        lemma_norm_refs(ps[0].1, names);
        lemma_norm_props_refs(ps.drop_first(), names);
        let x = norm_props(ps);
        assert(x[0] == (ps[0].0, norm(ps[0].1)));
        assert(x.drop_first() =~= norm_props(ps.drop_first()));
    }
}

/// A document without dangling references keeps that property through
/// normalization: the defined names are unchanged, and so are all targets.
pub proof fn lemma_norm_doc_refs(d: DocV)
    requires
        refs_ok(d),
    ensures
        refs_ok(norm_doc(d)),
{
    lemma_norm_props(d.definitions);
    lemma_def_names_same_keys(d.definitions, norm_props(d.definitions));
    lemma_norm_refs(d.root, def_names(d.definitions));
    lemma_norm_props_refs(d.definitions, def_names(d.definitions));
}

} // verus!
