//! The alias expander: for chosen definitions, duplicate a canonical property
//! under a legacy alias name, so that both spellings validate identically.
//! A missing definition or a missing canonical property is a silent no-op.

use vstd::prelude::*;

use crate::normalize::duplicate;
use crate::schema::DocV;
use crate::schema::def_names;
use crate::schema::lemma_def_names_same_keys;
use crate::schema::lemma_refs_resolve_props;
use crate::schema::refs_ok;
use crate::schema::refs_resolve;
use crate::schema::refs_resolve_props;
use crate::schema::NodeV;
use crate::schema::SchemaDocument;
use crate::schema::SchemaNode;
use crate::schema::has_key;
use crate::schema::key_at;
use crate::schema::lemma_key_at;
use crate::schema::lemma_key_at_push;
use crate::schema::lemma_key_at_same_keys;
use crate::schema::lemma_put_entry;
use crate::schema::lemma_put_entry_other;
use crate::schema::lemma_view_props;
use crate::schema::put_entry;
use crate::schema::value_of;
use crate::schema::view_node;
use crate::schema::view_props;
use crate::schema::lemma_wf_props;
use crate::schema::wf_doc;
use crate::schema::wf_node;
use crate::schema::wf_props;

verus! {

/// One alias-table entry: in definition `definition`, duplicate the property
/// `canonical` under the name `alias`.
#[derive(Debug, PartialEq, Eq)]
pub struct AliasEntry {
    pub definition: String,
    pub canonical: String,
    pub alias: String,
}

impl View for AliasEntry {
    type V = (Seq<char>, Seq<char>, Seq<char>);

    open spec fn view(&self) -> (Seq<char>, Seq<char>, Seq<char>) {
        (self.definition@, self.canonical@, self.alias@)
    }
}

/// View of an alias table.
pub open spec fn view_aliases(ts: Seq<AliasEntry>) -> Seq<(Seq<char>, Seq<char>, Seq<char>)> {
    Seq::new(ts.len(), |i: int| ts[i]@)
}

/// What one alias entry does to the definitions table: if definition `d`
/// exists, is object-shaped and declares the canonical property `c`, a copy
/// of that property's schema is entered under the alias name `a`; otherwise
/// nothing changes.
pub open spec fn expand_one(
    defs: Seq<(Seq<char>, NodeV)>,
    d: Seq<char>,
    c: Seq<char>,
    a: Seq<char>,
) -> Seq<(Seq<char>, NodeV)> {
    if has_key(defs, d) {
        match defs[key_at(defs, d)].1 {
            NodeV::Object { properties, required, additional } => if has_key(properties, c) {
                defs.update(
                    key_at(defs, d),
                    (
                        d,
                        NodeV::Object {
                            properties: put_entry(properties, a, value_of(properties, c)),
                            required,
                            additional,
                        },
                    ),
                )
            } else {
                defs
            },
            _ => defs,
        }
    } else {
        defs
    }
}

/// Alias entries applied in table order.
pub open spec fn expand_all(
    defs: Seq<(Seq<char>, NodeV)>,
    table: Seq<(Seq<char>, Seq<char>, Seq<char>)>,
) -> Seq<(Seq<char>, NodeV)>
    decreases table,
{
    if table.len() == 0 {
        defs
    } else {
        expand_all(expand_one(defs, table[0].0, table[0].1, table[0].2), table.drop_first())
    }
}

/// What alias expansion does to a document: only the definitions change.
pub open spec fn expand_doc(d: DocV, table: Seq<(Seq<char>, Seq<char>, Seq<char>)>) -> DocV {
    DocV {
        root: d.root,
        definitions: expand_all(d.definitions, table),
        title: d.title,
        description: d.description,
    }
}

/// Appending one entry to the table applies it after the rest.
pub proof fn lemma_expand_all_snoc(
    defs: Seq<(Seq<char>, NodeV)>,
    table: Seq<(Seq<char>, Seq<char>, Seq<char>)>,
    e: (Seq<char>, Seq<char>, Seq<char>),
)
    ensures
        expand_all(defs, table.push(e)) == expand_one(expand_all(defs, table), e.0, e.1, e.2),
    decreases table,
{
    let t2 = table.push(e);
    if table.len() == 0 {
        assert(t2.drop_first() =~= table);
        assert(t2[0] == e);
        assert(expand_all(defs, t2) == expand_all(
            expand_one(defs, e.0, e.1, e.2),
            table,
        ));
        assert(expand_all(expand_one(defs, e.0, e.1, e.2), table) == expand_one(
            defs,
            e.0,
            e.1,
            e.2,
        ));
    } else {
        assert(t2[0] == table[0]);
        assert(t2.drop_first() =~= table.drop_first().push(e));
        lemma_expand_all_snoc(
            expand_one(defs, table[0].0, table[0].1, table[0].2),
            table.drop_first(),
            e,
        );
        assert(expand_all(defs, t2) == expand_all(
            expand_one(defs, table[0].0, table[0].1, table[0].2),
            table.drop_first().push(e),
        ));
        assert(expand_all(defs, table) == expand_all(
            expand_one(defs, table[0].0, table[0].1, table[0].2),
            table.drop_first(),
        ));
    }
}

/// First index of `name` in the list, or its length when absent.
pub fn find_key(ps: &Vec<(String, SchemaNode)>, name: &String) -> (r: usize)
    ensures
        r == key_at(view_props(ps@), name@),
{
    proof {
        lemma_view_props(ps@);
        lemma_key_at(view_props(ps@), name@);
    }
    let mut i: usize = 0;
    while i < ps.len()
        invariant
            i <= ps@.len(),
            view_props(ps@).len() == ps@.len(),
            forall|j: int|
                0 <= j < ps@.len() ==> (#[trigger] view_props(ps@)[j]).0 == ps@[j].0@,
            forall|j: int| 0 <= j < i ==> (#[trigger] view_props(ps@)[j]).0 != name@,
        decreases ps@.len() - i,
    {
        if ps[i].0 == *name {
            proof {
                assert(view_props(ps@)[i as int].0 == name@);
                lemma_key_at(view_props(ps@), name@);
            }
            return i;
        }
        i = i + 1;
    }
    proof {
        lemma_key_at(view_props(ps@), name@);
    }
    i
}

/// Enter `node` under `name` in the list, replacing the first entry of that
/// name or appending when the name is new.
fn put_prop(ps: Vec<(String, SchemaNode)>, name: &String, node: SchemaNode) -> (r: Vec<
    (String, SchemaNode),
>)
    ensures
        view_props(r@) == put_entry(view_props(ps@), name@, node@),
{
    let ghost orig = ps@;
    let mut v = ps;
    let i = find_key(&v, name);
    proof {
        lemma_view_props(orig);
        lemma_key_at(view_props(orig), name@);
    }
    if i < v.len() {
        v.remove(i);
        v.insert(i, (name.clone(), node));
        proof {
            assert(v@ =~= orig.update(i as int, v@[i as int]));
            lemma_view_props(v@);
            assert(view_props(v@) =~= put_entry(view_props(orig), name@, node@));
        }
    } else {
        v.push((name.clone(), node));
        proof {
            lemma_view_props(v@);
            assert(view_props(v@) =~= put_entry(view_props(orig), name@, node@));
        }
    }
    v
}

/// Apply one alias entry to the definitions table.
fn expand_entry(defs: Vec<(String, SchemaNode)>, entry: &AliasEntry) -> (r: Vec<
    (String, SchemaNode),
>)
    ensures
        view_props(r@) == expand_one(
            view_props(defs@),
            entry.definition@,
            entry.canonical@,
            entry.alias@,
        ),
{
    let ghost orig = defs@;
    let mut v = defs;
    let i = find_key(&v, &entry.definition);
    proof {
        lemma_view_props(orig);
        lemma_key_at(view_props(orig), entry.definition@);
    }
    if i == v.len() {
        return v;
    }
    let (dname, dnode) = v.remove(i);
    proof {
        assert(dnode == orig[i as int].1);
        assert(view_node(dnode) == view_props(orig)[i as int].1);
    }
    match dnode {
        SchemaNode::Object { properties, required, additional } => {
            let ci = find_key(&properties, &entry.canonical);
            proof {
                lemma_view_props(properties@);
                lemma_key_at(view_props(properties@), entry.canonical@);
            }
            if ci < properties.len() {
                let copy = duplicate(&properties[ci].1);
                proof {
                    assert(copy@ == value_of(view_props(properties@), entry.canonical@));
                }
                let newprops = put_prop(properties, &entry.alias, copy);
                let newnode = SchemaNode::Object {
                    properties: newprops,
                    required,
                    additional,
                };
                v.insert(i, (dname, newnode));
                proof {
                    assert(v@ =~= orig.update(i as int, v@[i as int]));
                    lemma_view_props(v@);
                    assert(view_props(v@) =~= expand_one(
                        view_props(orig),
                        entry.definition@,
                        entry.canonical@,
                        entry.alias@,
                    ));
                }
                v
            } else {
                let back = SchemaNode::Object { properties, required, additional };
                v.insert(i, (dname, back));
                proof {
                    assert(v@ =~= orig);
                    assert(view_props(v@) =~= expand_one(
                        view_props(orig),
                        entry.definition@,
                        entry.canonical@,
                        entry.alias@,
                    ));
                }
                v
            }
        },
        other => {
            v.insert(i, (dname, other));
            proof {
                assert(v@ =~= orig);
                assert(view_props(v@) =~= expand_one(
                    view_props(orig),
                    entry.definition@,
                    entry.canonical@,
                    entry.alias@,
                ));
            }
            v
        },
    }
}

/// Apply an alias table to a document: in table order, each entry duplicates
/// a canonical property of a named definition under its alias name; entries
/// whose definition or canonical property is absent change nothing.
pub fn expand_aliases(doc: SchemaDocument, table: &Vec<AliasEntry>) -> (r: SchemaDocument)
    ensures
        r@ == expand_doc(doc@, view_aliases(table@)),
{
    let ghost dv = doc@;
    let SchemaDocument { root, definitions, title, description } = doc;
    let mut defs = definitions;
    let ghost tv = view_aliases(table@);
    let mut i: usize = 0;
    while i < table.len()
        invariant
            i <= table@.len(),
            tv == view_aliases(table@),
            tv.len() == table@.len(),
            view_props(defs@) == expand_all(dv.definitions, tv.take(i as int)),
        decreases table@.len() - i,
    {
        let entry = &table[i];
        defs = expand_entry(defs, entry);
        proof {
            assert(tv[i as int] == entry@);
            lemma_expand_all_snoc(dv.definitions, tv.take(i as int), tv[i as int]);
            assert(tv.take(i as int).push(tv[i as int]) =~= tv.take(i + 1 as int));
        }
        i = i + 1;
    }
    proof {
        assert(tv.take(table@.len() as int) =~= tv);
    }
    let r = SchemaDocument { root, definitions: defs, title, description };
    proof {
        assert(r@ =~= expand_doc(dv, tv));
    }
    r
}


/// Alias duplication fidelity on one property list: the alias name receives
/// exactly the canonical field's schema, and the canonical field keeps it.
pub proof fn lemma_alias_props(ps: Seq<(Seq<char>, NodeV)>, c: Seq<char>, a: Seq<char>)
    requires
        a != c,
        has_key(ps, c),
    ensures
        has_key(put_entry(ps, a, value_of(ps, c)), a),
        value_of(put_entry(ps, a, value_of(ps, c)), a) == value_of(ps, c),
        has_key(put_entry(ps, a, value_of(ps, c)), c),
        value_of(put_entry(ps, a, value_of(ps, c)), c) == value_of(ps, c),
{
    lemma_put_entry(ps, a, value_of(ps, c));
    lemma_put_entry_other(ps, c, (a, value_of(ps, c)));
}

/// Alias duplication fidelity over the definitions table: the named
/// definition's properties gain the alias entry, its required set and
/// `additionalProperties` stay, and every other definition is untouched.
pub proof fn lemma_alias_fidelity(
    defs: Seq<(Seq<char>, NodeV)>,
    d: Seq<char>,
    c: Seq<char>,
    a: Seq<char>,
)
    requires
        a != c,
        has_key(defs, d),
        defs[key_at(defs, d)].1 is Object,
        has_key(defs[key_at(defs, d)].1->properties, c),
    ensures
        expand_one(defs, d, c, a).len() == defs.len(),
        forall|j: int|
            0 <= j < defs.len() && j != key_at(defs, d) ==> expand_one(defs, d, c, a)[j] == defs[j],
        expand_one(defs, d, c, a)[key_at(defs, d)].0 == d,
        expand_one(defs, d, c, a)[key_at(defs, d)].1 is Object,
        expand_one(defs, d, c, a)[key_at(defs, d)].1->properties == put_entry(
            defs[key_at(defs, d)].1->properties,
            a,
            value_of(defs[key_at(defs, d)].1->properties, c),
        ),
        expand_one(defs, d, c, a)[key_at(defs, d)].1->required == defs[key_at(
            defs,
            d,
        )].1->required,
        expand_one(defs, d, c, a)[key_at(defs, d)].1->additional == defs[key_at(
            defs,
            d,
        )].1->additional,
{
    lemma_key_at(defs, d);
}

/// Absence of the definition, of object shape, or of the canonical field
/// leaves the table unchanged.
pub proof fn lemma_alias_absent(
    defs: Seq<(Seq<char>, NodeV)>,
    d: Seq<char>,
    c: Seq<char>,
    a: Seq<char>,
)
    requires
        has_key(defs, d) ==> defs[key_at(defs, d)].1 is Object ==> !has_key(
            defs[key_at(defs, d)].1->properties,
            c,
        ),
    ensures
        expand_one(defs, d, c, a) == defs,
{
}

/// The alias table used for the generated schemas: `comment-token` is a
/// legacy spelling of the `comment-tokens` property of the language
/// configuration definition.
pub fn default_alias_table() -> (r: Vec<AliasEntry>)
    ensures
        r@.len() == 1,
        r@[0].definition@ == "LanguageConfiguration"@,
        r@[0].canonical@ == "comment-tokens"@,
        r@[0].alias@ == "comment-token"@,
{
    let mut v: Vec<AliasEntry> = Vec::new();
    v.push(
        AliasEntry {
            definition: "LanguageConfiguration".to_owned(),
            canonical: "comment-tokens".to_owned(),
            alias: "comment-token".to_owned(),
        },
    );
    v
}


/// Entering an existing schema under a new name keeps a property list
/// well-formed and keeps every name findable.
pub proof fn lemma_put_entry_wf(ps: Seq<(Seq<char>, NodeV)>, a: Seq<char>, v: NodeV)
    requires
        wf_props(ps),
        wf_node(v),
    ensures
        wf_props(put_entry(ps, a, v)),
        forall|k: Seq<char>| has_key(ps, k) ==> #[trigger] has_key(put_entry(ps, a, v), k),
{
    lemma_key_at(ps, a);
    lemma_wf_props(ps);
    let p2 = put_entry(ps, a, v);
    lemma_wf_props(p2);
    if has_key(ps, a) {
        let j = key_at(ps, a);
        assert(forall|t: int| 0 <= t < p2.len() && t != j ==> #[trigger] p2[t] == ps[t]);
        assert(p2[j].1 == v);
        assert(forall|t: int| 0 <= t < p2.len() ==> wf_node((#[trigger] p2[t]).1));
        assert forall|k: Seq<char>| has_key(ps, k) implies #[trigger] has_key(p2, k) by {
            assert(forall|t: int| 0 <= t < ps.len() ==> (#[trigger] ps[t]).0 == p2[t].0);
            lemma_key_at_same_keys(ps, p2, k);
        }
    } else {
        assert(forall|t: int| 0 <= t < ps.len() ==> #[trigger] p2[t] == ps[t]);
        assert(p2[ps.len() as int].1 == v);
        assert(forall|t: int| 0 <= t < p2.len() ==> wf_node((#[trigger] p2[t]).1));
        assert forall|k: Seq<char>| has_key(ps, k) implies #[trigger] has_key(p2, k) by {
            lemma_key_at_push(ps, (a, v), k);
        }
    }
}

/// One alias entry preserves well-formedness of the definitions table: the
/// duplicated schema is one that was already there, and property names are
/// only added, never removed.
pub proof fn lemma_expand_one_wf(
    defs: Seq<(Seq<char>, NodeV)>,
    d: Seq<char>,
    c: Seq<char>,
    a: Seq<char>,
)
    requires
        wf_props(defs),
    ensures
        wf_props(expand_one(defs, d, c, a)),
{
    lemma_key_at(defs, d);
    lemma_wf_props(defs);
    if has_key(defs, d) {
        let i = key_at(defs, d);
        let node = defs[i].1;
        assert(wf_node(node));
        if node is Object && has_key(node->properties, c) {
            let ps = node->properties;
            lemma_key_at(ps, c);
            lemma_wf_props(ps);
            let v = value_of(ps, c);
            assert(wf_node(v));
            lemma_put_entry_wf(ps, a, v);
            let newnode = NodeV::Object {
                properties: put_entry(ps, a, v),
                required: node->required,
                additional: node->additional,
            };
            assert forall|t: int| 0 <= t < node->required.len() implies has_key(
                put_entry(ps, a, v),
                #[trigger] node->required[t],
            ) by {
                assert(has_key(ps, node->required[t]));
            }
            assert(wf_node(newnode));
            let d2 = expand_one(defs, d, c, a);
            assert(d2 == defs.update(i, (d, newnode)));
            lemma_wf_props(d2);
            assert(forall|t: int| 0 <= t < d2.len() && t != i ==> #[trigger] d2[t] == defs[t]);
            assert(forall|t: int| 0 <= t < d2.len() ==> wf_node((#[trigger] d2[t]).1));
        }
    }
}

/// A whole alias table preserves well-formedness of the definitions table.
pub proof fn lemma_expand_all_wf(
    defs: Seq<(Seq<char>, NodeV)>,
    table: Seq<(Seq<char>, Seq<char>, Seq<char>)>,
)
    requires
        wf_props(defs),
    ensures
        wf_props(expand_all(defs, table)),
    decreases table,
{
    if table.len() > 0 {
        lemma_expand_one_wf(defs, table[0].0, table[0].1, table[0].2);
        lemma_expand_all_wf(expand_one(defs, table[0].0, table[0].1, table[0].2), table.drop_first());
    }
}

/// A well-formed document stays well-formed through alias expansion.
pub proof fn lemma_expand_doc_wf(d: DocV, table: Seq<(Seq<char>, Seq<char>, Seq<char>)>)
    requires
        wf_doc(d),
    ensures
        wf_doc(expand_doc(d, table)),
{
    lemma_expand_all_wf(d.definitions, table);
}

/// One alias entry neither changes the defined names nor introduces a
/// dangling reference: the duplicated schema is a copy of one already there.
pub proof fn lemma_expand_one_refs(
    defs: Seq<(Seq<char>, NodeV)>,
    d: Seq<char>,
    c: Seq<char>,
    a: Seq<char>,
)
    requires
        refs_resolve_props(defs, def_names(defs)),
    ensures
        def_names(expand_one(defs, d, c, a)) == def_names(defs),
        refs_resolve_props(expand_one(defs, d, c, a), def_names(defs)),
{
    lemma_key_at(defs, d);
    let names = def_names(defs);
    let d2 = expand_one(defs, d, c, a);
    if has_key(defs, d) {
        let i = key_at(defs, d);
        let node = defs[i].1;
        if node is Object && has_key(node->properties, c) {
            let ps = node->properties;
            lemma_key_at(ps, c);
            lemma_refs_resolve_props(defs, names);
            assert(refs_resolve(node, names));
            lemma_refs_resolve_props(ps, names);
            let v = value_of(ps, c);
            assert(refs_resolve(v, names));
            let p2 = put_entry(ps, a, v);
            lemma_key_at(ps, a);
            lemma_refs_resolve_props(p2, names);
            if has_key(ps, a) {
                let j = key_at(ps, a);
                assert(forall|t: int| 0 <= t < p2.len() && t != j ==> #[trigger] p2[t] == ps[t]);
                assert(p2[j].1 == v);
            } else {
                assert(forall|t: int| 0 <= t < ps.len() ==> #[trigger] p2[t] == ps[t]);
                assert(p2[ps.len() as int].1 == v);
            }
            assert(refs_resolve_props(p2, names));
            assert(refs_resolve(d2[i].1, names));
            assert(forall|t: int| 0 <= t < d2.len() && t != i ==> #[trigger] d2[t] == defs[t]);
            assert(forall|t: int| 0 <= t < d2.len() ==> (#[trigger] d2[t]).0 == defs[t].0);
            lemma_def_names_same_keys(defs, d2);
            lemma_refs_resolve_props(d2, names);
        } else {
            assert(d2 == defs);
        }
    } else {
        assert(d2 == defs);
    }
}

/// A whole alias table preserves freedom from dangling references.
pub proof fn lemma_expand_all_refs(
    defs: Seq<(Seq<char>, NodeV)>,
    table: Seq<(Seq<char>, Seq<char>, Seq<char>)>,
)
    requires
        refs_resolve_props(defs, def_names(defs)),
    ensures
        def_names(expand_all(defs, table)) == def_names(defs),
        refs_resolve_props(expand_all(defs, table), def_names(defs)),
    decreases table,
{
    if table.len() > 0 {
        lemma_expand_one_refs(defs, table[0].0, table[0].1, table[0].2);
        lemma_expand_all_refs(
            expand_one(defs, table[0].0, table[0].1, table[0].2),
            table.drop_first(),
        );
    }
}

/// A document without dangling references keeps that property through alias
/// expansion.
pub proof fn lemma_expand_doc_refs(d: DocV, table: Seq<(Seq<char>, Seq<char>, Seq<char>)>)
    requires
        refs_ok(d),
    ensures
        refs_ok(expand_doc(d, table)),
{
    lemma_expand_all_refs(d.definitions, table);
}

} // verus!
