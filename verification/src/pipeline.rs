//! The per-target pipeline around a freshly derived document: optionally
//! relax required sets for the override variant, expand aliases, normalize
//! strictness, and attach the root metadata. Derivation of the raw document
//! and writing the serialized result are the caller's business.

use vstd::prelude::*;

use crate::alias::AliasEntry;
use crate::alias::expand_aliases;
use crate::alias::expand_doc;
use crate::alias::lemma_expand_doc_refs;
use crate::alias::lemma_expand_doc_wf;
use crate::alias::view_aliases;
use crate::normalize::closed_doc;
use crate::normalize::lemma_norm_doc_closed;
use crate::normalize::lemma_norm_doc_refs;
use crate::normalize::lemma_norm_doc_wf;
use crate::normalize::norm_doc;
use crate::normalize::normalize_document;
use crate::schema::DocV;
use crate::schema::SchemaDocument;
use crate::schema::refs_ok;
use crate::schema::wf_doc;
use crate::variant::OverrideRule;
use crate::variant::RelaxV;
use crate::variant::lemma_specialize_doc_refs;
use crate::variant::lemma_specialize_preserves_wf;
use crate::variant::specialize_doc;
use crate::variant::specialize_overrides;
use crate::variant::view_rules;

verus! {

/// A document with its root metadata replaced.
pub open spec fn with_metadata(d: DocV, title: Seq<char>, description: Seq<char>) -> DocV {
    DocV { root: d.root, definitions: d.definitions, title: Some(title), description: Some(
        description,
    ) }
}

/// The whole pipeline on a derived document: relax required sets when the
/// override variant is asked for, expand aliases, normalize strictness last
/// so duplicated properties are covered too, then attach the metadata.
pub open spec fn prepare_spec(
    d: DocV,
    override_variant: bool,
    aliases: Seq<(Seq<char>, Seq<char>, Seq<char>)>,
    rules: Seq<(Seq<char>, RelaxV)>,
    title: Seq<char>,
    description: Seq<char>,
) -> DocV {
    let specialized = if override_variant {
        specialize_doc(d, rules)
    } else {
        d
    };
    with_metadata(norm_doc(expand_doc(specialized, aliases)), title, description)
}

/// Set the root `title` and `description`, leaving the schemas untouched.
pub fn attach_metadata(doc: SchemaDocument, title: String, description: String) -> (r:
    SchemaDocument)
    ensures
        r@ == with_metadata(doc@, title@, description@),
{
    let SchemaDocument { root, definitions, title: _, description: _ } = doc;
    let r = SchemaDocument { root, definitions, title: Some(title), description: Some(
        description,
    ) };
    proof {
        assert(r@ =~= with_metadata(doc@, title@, description@));
    }
    r
}

/// Run the pipeline on a derived document.
pub fn prepare_document(
    doc: SchemaDocument,
    override_variant: bool,
    aliases: &Vec<AliasEntry>,
    rules: &Vec<OverrideRule>,
    title: String,
    description: String,
) -> (r: SchemaDocument)
    ensures
        r@ == prepare_spec(
            doc@,
            override_variant,
            view_aliases(aliases@),
            view_rules(rules@),
            title@,
            description@,
        ),
{
    let specialized = if override_variant {
        specialize_overrides(doc, rules)
    } else {
        doc
    };
    let expanded = expand_aliases(specialized, aliases);
    let normalized = normalize_document(&expanded);
    attach_metadata(normalized, title, description)
}

/// The pipeline preserves well-formedness end to end: in the result, as in a
/// well-formed input, `required` only ever names declared properties.
pub proof fn lemma_prepare_wf(
    d: DocV,
    override_variant: bool,
    aliases: Seq<(Seq<char>, Seq<char>, Seq<char>)>,
    rules: Seq<(Seq<char>, RelaxV)>,
    title: Seq<char>,
    description: Seq<char>,
)
    requires
        wf_doc(d),
    ensures
        wf_doc(prepare_spec(d, override_variant, aliases, rules, title, description)),
{
    let specialized = if override_variant {
        specialize_doc(d, rules)
    } else {
        d
    };
    if override_variant {
        lemma_specialize_preserves_wf(d, rules);
    }
    lemma_expand_doc_wf(specialized, aliases);
    lemma_norm_doc_wf(expand_doc(specialized, aliases));
}

/// After the pipeline, every reachable object-shaped node carries an
/// `additionalProperties` declaration.
pub proof fn lemma_prepare_closed(
    d: DocV,
    override_variant: bool,
    aliases: Seq<(Seq<char>, Seq<char>, Seq<char>)>,
    rules: Seq<(Seq<char>, RelaxV)>,
    title: Seq<char>,
    description: Seq<char>,
)
    ensures
        closed_doc(prepare_spec(d, override_variant, aliases, rules, title, description)),
{
    let specialized = if override_variant {
        specialize_doc(d, rules)
    } else {
        d
    };
    lemma_norm_doc_closed(expand_doc(specialized, aliases));
}

/// The pipeline never introduces a dangling reference: a document whose
/// references all resolve keeps that property end to end.
pub proof fn lemma_prepare_refs(
    d: DocV,
    override_variant: bool,
    aliases: Seq<(Seq<char>, Seq<char>, Seq<char>)>,
    rules: Seq<(Seq<char>, RelaxV)>,
    title: Seq<char>,
    description: Seq<char>,
)
    requires
        refs_ok(d),
    ensures
        refs_ok(prepare_spec(d, override_variant, aliases, rules, title, description)),
{
    let specialized = if override_variant {
        specialize_doc(d, rules)
    } else {
        d
    };
    if override_variant {
        lemma_specialize_doc_refs(d, rules);
    }
    lemma_expand_doc_refs(specialized, aliases);
    lemma_norm_doc_refs(expand_doc(specialized, aliases));
}

} // verus!
