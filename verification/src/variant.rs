//! The variant specializer: for the override variant of a schema, relax the
//! required-field constraints of named definitions. One definition keeps only
//! its identifying field required; another drops its required set entirely.
//! A missing definition is a silent no-op.

use vstd::prelude::*;

use crate::schema::DocV;
use crate::schema::def_names;
use crate::schema::lemma_def_names_same_keys;
use crate::schema::lemma_refs_resolve_props;
use crate::schema::refs_ok;
use crate::schema::refs_resolve;
use crate::schema::refs_resolve_props;
use crate::schema::NodeV;
use crate::schema::SchemaDocument;
use crate::schema::SchemaNode;
use crate::schema::has_key;
use crate::schema::key_at;
use crate::schema::lemma_key_at;
use crate::schema::lemma_view_props;
use crate::schema::lemma_wf_props;
use crate::schema::required_covered;
use crate::schema::view_props;
use crate::schema::wf_doc;
use crate::schema::wf_node;
use crate::schema::wf_props;
use crate::alias::find_key;

verus! {

/// How one definition's required set is relaxed.
#[derive(Debug, PartialEq, Eq)]
pub enum RelaxRule {
    /// Exactly this field stays required — provided the definition declares
    /// it as a property; otherwise the required set is cleared, so that
    /// `required` never names an undeclared property.
    RequireOnly(String),
    /// The required set is cleared: every field becomes optional.
    RequireNone,
}

/// Mathematical view of `RelaxRule`.
pub enum RelaxV {
    RequireOnly(Seq<char>),
    RequireNone,
}

impl View for RelaxRule {
    type V = RelaxV;

    open spec fn view(&self) -> RelaxV {
        match self {
            RelaxRule::RequireOnly(f) => RelaxV::RequireOnly(f@),
            RelaxRule::RequireNone => RelaxV::RequireNone,
        }
    }
}

/// One override rule: the definition it names and how it is relaxed.
#[derive(Debug, PartialEq, Eq)]
pub struct OverrideRule {
    pub definition: String,
    pub rule: RelaxRule,
}

impl View for OverrideRule {
    type V = (Seq<char>, RelaxV);

    open spec fn view(&self) -> (Seq<char>, RelaxV) {
        (self.definition@, self.rule@)
    }
}

/// View of a rule table.
pub open spec fn view_rules(ts: Seq<OverrideRule>) -> Seq<(Seq<char>, RelaxV)> {
    Seq::new(ts.len(), |i: int| ts[i]@)
}

/// The relaxed required set of an object with the given properties.
pub open spec fn relax_required(
    properties: Seq<(Seq<char>, NodeV)>,
    rule: RelaxV,
) -> Seq<Seq<char>> {
    match rule {
        RelaxV::RequireOnly(f) => if has_key(properties, f) {
            seq![f]
        } else {
            Seq::empty()
        },
        RelaxV::RequireNone => Seq::empty(),
    }
}

/// What one rule does to the definitions table: if definition `d` exists and
/// is object-shaped, its required set is replaced by the relaxed one;
/// otherwise nothing changes.
pub open spec fn specialize_one(defs: Seq<(Seq<char>, NodeV)>, d: Seq<char>, rule: RelaxV) -> Seq<
    (Seq<char>, NodeV),
> {
    if has_key(defs, d) {
        match defs[key_at(defs, d)].1 {
            NodeV::Object { properties, additional, .. } => defs.update(
                key_at(defs, d),
                (
                    d,
                    NodeV::Object {
                        properties,
                        required: relax_required(properties, rule),
                        additional,
                    },
                ),
            ),
            _ => defs,
        }
    } else {
        defs
    }
}

/// Override rules applied in table order.
pub open spec fn specialize_all(
    defs: Seq<(Seq<char>, NodeV)>,
    rules: Seq<(Seq<char>, RelaxV)>,
) -> Seq<(Seq<char>, NodeV)>
    decreases rules,
{
    if rules.len() == 0 {
        defs
    } else {
        specialize_all(specialize_one(defs, rules[0].0, rules[0].1), rules.drop_first())
    }
}

/// What the specializer does to a document: only the definitions change.
pub open spec fn specialize_doc(d: DocV, rules: Seq<(Seq<char>, RelaxV)>) -> DocV {
    DocV {
        root: d.root,
        definitions: specialize_all(d.definitions, rules),
        title: d.title,
        description: d.description,
    }
}

/// Appending one rule to the table applies it after the rest.
pub proof fn lemma_specialize_all_snoc(
    defs: Seq<(Seq<char>, NodeV)>,
    rules: Seq<(Seq<char>, RelaxV)>,
    e: (Seq<char>, RelaxV),
)
    ensures
        specialize_all(defs, rules.push(e)) == specialize_one(specialize_all(defs, rules), e.0, e.1),
    decreases rules,
{
    let t2 = rules.push(e);
    if rules.len() == 0 {
        assert(t2.drop_first() =~= rules);
        assert(t2[0] == e);
        assert(specialize_all(defs, t2) == specialize_all(specialize_one(defs, e.0, e.1), rules));
        assert(specialize_all(specialize_one(defs, e.0, e.1), rules) == specialize_one(
            defs,
            e.0,
            e.1,
        ));
    } else {
        assert(t2[0] == rules[0]);
        assert(t2.drop_first() =~= rules.drop_first().push(e));
        lemma_specialize_all_snoc(
            specialize_one(defs, rules[0].0, rules[0].1),
            rules.drop_first(),
            e,
        );
        assert(specialize_all(defs, t2) == specialize_all(
            specialize_one(defs, rules[0].0, rules[0].1),
            rules.drop_first().push(e),
        ));
        assert(specialize_all(defs, rules) == specialize_all(
            specialize_one(defs, rules[0].0, rules[0].1),
            rules.drop_first(),
        ));
    }
}

/// Apply one override rule to the definitions table.
fn specialize_entry(defs: Vec<(String, SchemaNode)>, entry: &OverrideRule) -> (r: Vec<
    (String, SchemaNode),
>)
    ensures
        view_props(r@) == specialize_one(view_props(defs@), entry.definition@, entry.rule@),
{
    let ghost orig = defs@;
    let mut v = defs;
    let i = find_key(&v, &entry.definition);
    proof {
        lemma_view_props(orig);
        lemma_key_at(view_props(orig), entry.definition@);
    }
    if i == v.len() {
        return v;
    }
    let (dname, dnode) = v.remove(i);
    proof {
        assert(dnode == orig[i as int].1);
        assert(crate::schema::view_node(dnode) == view_props(orig)[i as int].1);
    }
    match dnode {
        SchemaNode::Object { properties, required: _, additional } => {
            let mut new_required: Vec<String> = Vec::new();
            match &entry.rule {
                RelaxRule::RequireOnly(f) => {
                    let ci = find_key(&properties, f);
                    proof {
                        lemma_view_props(properties@);
                        lemma_key_at(view_props(properties@), f@);
                    }
                    if ci < properties.len() {
                        new_required.push(f.clone());
                    }
                },
                RelaxRule::RequireNone => {},
            }
            proof {
                assert(Seq::new(new_required@.len(), |k: int| new_required@[k]@) =~= relax_required(
                    view_props(properties@),
                    entry.rule@,
                ));
            }
            let newnode = SchemaNode::Object { properties, required: new_required, additional };
            v.insert(i, (dname, newnode));
            proof {
                assert(v@ =~= orig.update(i as int, v@[i as int]));
                lemma_view_props(v@);
                assert(view_props(v@) =~= specialize_one(
                    view_props(orig),
                    entry.definition@,
                    entry.rule@,
                ));
            }
            v
        },
        other => {
            v.insert(i, (dname, other));
            proof {
                assert(v@ =~= orig);
                assert(view_props(v@) =~= specialize_one(
                    view_props(orig),
                    entry.definition@,
                    entry.rule@,
                ));
            }
            v
        },
    }
}

/// Apply a rule table to a document: in table order, each rule relaxes the
/// required set of a named definition; rules naming an absent definition
/// change nothing.
pub fn specialize_overrides(doc: SchemaDocument, rules: &Vec<OverrideRule>) -> (r: SchemaDocument)
    ensures
        r@ == specialize_doc(doc@, view_rules(rules@)),
{
    let ghost dv = doc@;
    let SchemaDocument { root, definitions, title, description } = doc;
    let mut defs = definitions;
    let ghost tv = view_rules(rules@);
    let mut i: usize = 0;
    while i < rules.len()
        invariant
            i <= rules@.len(),
            tv == view_rules(rules@),
            tv.len() == rules@.len(),
            view_props(defs@) == specialize_all(dv.definitions, tv.take(i as int)),
        decreases rules@.len() - i,
    {
        let entry = &rules[i];
        defs = specialize_entry(defs, entry);
        proof {
            assert(tv[i as int] == entry@);
            lemma_specialize_all_snoc(dv.definitions, tv.take(i as int), tv[i as int]);
            assert(tv.take(i as int).push(tv[i as int]) =~= tv.take(i + 1 as int));
        }
        i = i + 1;
    }
    proof {
        assert(tv.take(rules@.len() as int) =~= tv);
    }
    let r = SchemaDocument { root, definitions: defs, title, description };
    proof {
        assert(r@ =~= specialize_doc(dv, tv));
    }
    r
}


/// What one rule does to the definition it names: required becomes the
/// relaxed set; properties and `additionalProperties` stay; every other
/// definition is untouched.
pub proof fn lemma_specialize_one_required(
    defs: Seq<(Seq<char>, NodeV)>,
    d: Seq<char>,
    rule: RelaxV,
)
    requires
        has_key(defs, d),
        defs[key_at(defs, d)].1 is Object,
    ensures
        specialize_one(defs, d, rule).len() == defs.len(),
        forall|j: int|
            0 <= j < defs.len() && j != key_at(defs, d) ==> specialize_one(defs, d, rule)[j]
                == defs[j],
        specialize_one(defs, d, rule)[key_at(defs, d)].0 == d,
        specialize_one(defs, d, rule)[key_at(defs, d)].1 is Object,
        specialize_one(defs, d, rule)[key_at(defs, d)].1->required == relax_required(
            defs[key_at(defs, d)].1->properties,
            rule,
        ),
        specialize_one(defs, d, rule)[key_at(defs, d)].1->properties == defs[key_at(
            defs,
            d,
        )].1->properties,
        specialize_one(defs, d, rule)[key_at(defs, d)].1->additional == defs[key_at(
            defs,
            d,
        )].1->additional,
{
    lemma_key_at(defs, d);
}

/// The relaxed required set only names declared properties.
pub proof fn lemma_relax_required_covered(properties: Seq<(Seq<char>, NodeV)>, rule: RelaxV)
    ensures
        required_covered(properties, relax_required(properties, rule)),
{
    match rule {
        RelaxV::RequireOnly(f) => {
            if has_key(properties, f) {
                assert(relax_required(properties, rule) =~= seq![f]);
                assert(forall|i: int|
                    0 <= i < 1 ==> has_key(
                        properties,
                        #[trigger] relax_required(properties, rule)[i],
                    ));
            }
        },
        RelaxV::RequireNone => {},
    }
}

/// One relaxation step preserves well-formedness of the definitions table.
pub proof fn lemma_specialize_one_wf(defs: Seq<(Seq<char>, NodeV)>, d: Seq<char>, rule: RelaxV)
    requires
        wf_props(defs),
    ensures
        wf_props(specialize_one(defs, d, rule)),
{
    lemma_wf_props(defs);
    lemma_key_at(defs, d);
    if has_key(defs, d) && defs[key_at(defs, d)].1 is Object {
        let i = key_at(defs, d);
        let d2 = specialize_one(defs, d, rule);
        lemma_relax_required_covered(defs[i].1->properties, rule);
        assert(wf_node(defs[i].1));
        assert(wf_node(d2[i].1));
        lemma_wf_props(d2);
        assert(forall|j: int|
            0 <= j < d2.len() && j != i ==> (#[trigger] d2[j]).1 == defs[j].1);
    } else {
        assert(specialize_one(defs, d, rule) == defs);
    }
}

/// The whole rule table preserves well-formedness of the definitions table.
pub proof fn lemma_specialize_all_wf(defs: Seq<(Seq<char>, NodeV)>, rules: Seq<(Seq<char>, RelaxV)>)
    requires
        wf_props(defs),
    ensures
        wf_props(specialize_all(defs, rules)),
    decreases rules,
{
    if rules.len() > 0 {
        lemma_specialize_one_wf(defs, rules[0].0, rules[0].1);
        lemma_specialize_all_wf(specialize_one(defs, rules[0].0, rules[0].1), rules.drop_first());
    }
}

/// Required-set subset invariant: a well-formed document stays well-formed
/// through the variant specializer — `required` never comes to name a
/// property that is not declared.
pub proof fn lemma_specialize_preserves_wf(d: DocV, rules: Seq<(Seq<char>, RelaxV)>)
    requires
        wf_doc(d),
    ensures
        wf_doc(specialize_doc(d, rules)),
{
    lemma_specialize_all_wf(d.definitions, rules);
}

/// The override rules used for the override variant: the language
/// configuration keeps only its identifying `name` field required, and the
/// language server configuration loses its required set entirely.
pub fn default_override_rules() -> (r: Vec<OverrideRule>)
    ensures
        r@.len() == 2,
        r@[0].definition@ == "LanguageConfiguration"@,
        r@[0].rule@ == RelaxV::RequireOnly("name"@),
        r@[1].definition@ == "LanguageServerConfiguration"@,
        r@[1].rule@ == RelaxV::RequireNone,
{
    let mut v: Vec<OverrideRule> = Vec::new();
    v.push(
        OverrideRule {
            definition: "LanguageConfiguration".to_owned(),
            rule: RelaxRule::RequireOnly("name".to_owned()),
        },
    );
    v.push(
        OverrideRule {
            definition: "LanguageServerConfiguration".to_owned(),
            rule: RelaxRule::RequireNone,
        },
    );
    v
}

/// One relaxation step neither changes the defined names nor touches any
/// reference.
pub proof fn lemma_specialize_one_refs(defs: Seq<(Seq<char>, NodeV)>, d: Seq<char>, rule: RelaxV)
    requires
        refs_resolve_props(defs, def_names(defs)),
    ensures
        def_names(specialize_one(defs, d, rule)) == def_names(defs),
        refs_resolve_props(specialize_one(defs, d, rule), def_names(defs)),
{
    lemma_key_at(defs, d);
    let d2 = specialize_one(defs, d, rule);
    if has_key(defs, d) && defs[key_at(defs, d)].1 is Object {
        let i = key_at(defs, d);
        assert(forall|j: int| 0 <= j < d2.len() ==> (#[trigger] d2[j]).0 == defs[j].0);
        lemma_def_names_same_keys(defs, d2);
        lemma_refs_resolve_props(defs, def_names(defs));
        assert(refs_resolve(defs[i].1, def_names(defs)));
        assert(refs_resolve(d2[i].1, def_names(defs)));
        lemma_refs_resolve_props(d2, def_names(defs));
        assert(forall|j: int| 0 <= j < d2.len() && j != i ==> #[trigger] d2[j] == defs[j]);
    } else {
        assert(d2 == defs);
    }
}

/// A whole rule table preserves freedom from dangling references.
pub proof fn lemma_specialize_all_refs(
    defs: Seq<(Seq<char>, NodeV)>,
    rules: Seq<(Seq<char>, RelaxV)>,
)
    requires
        refs_resolve_props(defs, def_names(defs)),
    ensures
        def_names(specialize_all(defs, rules)) == def_names(defs),
        refs_resolve_props(specialize_all(defs, rules), def_names(defs)),
    decreases rules,
{
    if rules.len() > 0 {
        lemma_specialize_one_refs(defs, rules[0].0, rules[0].1);
        lemma_specialize_all_refs(specialize_one(defs, rules[0].0, rules[0].1), rules.drop_first());
    }
}

/// A document without dangling references keeps that property through the
/// variant specializer.
pub proof fn lemma_specialize_doc_refs(d: DocV, rules: Seq<(Seq<char>, RelaxV)>)
    requires
        refs_ok(d),
    ensures
        refs_ok(specialize_doc(d, rules)),
{
    lemma_specialize_all_refs(d.definitions, rules);
}

} // verus!
