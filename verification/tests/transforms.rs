use schemagen::alias::{default_alias_table, expand_aliases, AliasEntry};
use schemagen::normalize::{normalize, normalize_document};
use schemagen::pipeline::{attach_metadata, prepare_document};
use schemagen::schema::{AdditionalProps, ScalarKind, SchemaDocument, SchemaNode};
use schemagen::variant::{default_override_rules, specialize_overrides, OverrideRule, RelaxRule};

fn scalar(kind: ScalarKind) -> SchemaNode {
    SchemaNode::Scalar { kind, format: None }
}

fn object(props: Vec<(&str, SchemaNode)>, required: Vec<&str>) -> SchemaNode {
    SchemaNode::Object {
        properties: props.into_iter().map(|(k, v)| (k.to_string(), v)).collect(),
        required: required.into_iter().map(|k| k.to_string()).collect(),
        additional: None,
    }
}

fn document(root: SchemaNode, definitions: Vec<(&str, SchemaNode)>) -> SchemaDocument {
    SchemaDocument {
        root,
        definitions: definitions.into_iter().map(|(k, v)| (k.to_string(), v)).collect(),
        title: None,
        description: None,
    }
}

fn get_prop<'a>(node: &'a SchemaNode, name: &str) -> Option<&'a SchemaNode> {
    match node {
        SchemaNode::Object { properties, .. } => {
            properties.iter().find(|(k, _)| k == name).map(|(_, v)| v)
        }
        _ => None,
    }
}

fn get_def<'a>(doc: &'a SchemaDocument, name: &str) -> Option<&'a SchemaNode> {
    doc.definitions.iter().find(|(k, _)| k == name).map(|(_, v)| v)
}

fn required_of(node: &SchemaNode) -> Vec<String> {
    match node {
        SchemaNode::Object { required, .. } => required.clone(),
        _ => panic!("not an object node"),
    }
}

fn additional_of(node: &SchemaNode) -> &Option<AdditionalProps> {
    match node {
        SchemaNode::Object { additional, .. } => additional,
        _ => panic!("not an object node"),
    }
}

#[test]
fn normalize_closes_every_object() {
    let inner = object(vec![("x", scalar(ScalarKind::Number))], vec![]);
    let arr = SchemaNode::Array {
        items: Box::new(object(vec![("y", scalar(ScalarKind::String))], vec![])),
    };
    let root = object(vec![("inner", inner), ("list", arr)], vec!["inner"]);
    let doc = document(root, vec![("Def", object(vec![("z", scalar(ScalarKind::Boolean))], vec![]))]);

    let out = normalize_document(&doc);

    assert_eq!(
        additional_of(&out.root),
        &Some(AdditionalProps::Allow(false))
    );
    let inner_out = get_prop(&out.root, "inner").unwrap();
    assert_eq!(additional_of(inner_out), &Some(AdditionalProps::Allow(false)));
    match get_prop(&out.root, "list").unwrap() {
        SchemaNode::Array { items } => {
            assert_eq!(additional_of(items), &Some(AdditionalProps::Allow(false)));
        }
        _ => panic!("expected an array node"),
    }
    let def_out = get_def(&out, "Def").unwrap();
    assert_eq!(additional_of(def_out), &Some(AdditionalProps::Allow(false)));
}

#[test]
fn normalize_is_idempotent() {
    let root = object(
        vec![
            ("a", object(vec![("b", scalar(ScalarKind::String))], vec!["b"])),
            ("c", scalar(ScalarKind::Null)),
        ],
        vec!["a"],
    );
    let doc = document(root, vec![("D", object(vec![("e", scalar(ScalarKind::Number))], vec![]))]);

    let once = normalize_document(&doc);
    let twice = normalize_document(&once);
    assert_eq!(once, twice);
}

#[test]
fn normalize_keeps_preset_boolean() {
    let mut node = object(vec![("k", scalar(ScalarKind::String))], vec![]);
    if let SchemaNode::Object { additional, .. } = &mut node {
        *additional = Some(AdditionalProps::Allow(true));
    }
    let out = normalize(&node);
    assert_eq!(additional_of(&out), &Some(AdditionalProps::Allow(true)));
}

#[test]
fn normalize_keeps_preset_schema_untouched() {
    // A map-like node: no properties of its own, arbitrary keys of a fixed
    // value schema. The normalizer must leave it byte-identical.
    let node = SchemaNode::Object {
        properties: Vec::new(),
        required: Vec::new(),
        additional: Some(AdditionalProps::Schema(Box::new(scalar(ScalarKind::String)))),
    };
    let out = normalize(&node);
    assert_eq!(out, node);
}

#[test]
fn alias_duplicates_canonical_field() {
    let lang = object(
        vec![
            ("name", scalar(ScalarKind::String)),
            ("comment-tokens", scalar(ScalarKind::String)),
        ],
        vec!["name"],
    );
    let doc = document(object(vec![], vec![]), vec![("LanguageConfiguration", lang)]);
    let table = default_alias_table();

    let out = expand_aliases(doc, &table);

    let def = get_def(&out, "LanguageConfiguration").unwrap();
    let canonical = get_prop(def, "comment-tokens").unwrap();
    let alias = get_prop(def, "comment-token").unwrap();
    assert_eq!(alias, canonical);
    assert_eq!(alias, &scalar(ScalarKind::String));
    assert_eq!(required_of(def), vec!["name".to_string()]);
}

#[test]
fn alias_without_canonical_is_noop() {
    let lang = object(vec![("name", scalar(ScalarKind::String))], vec!["name"]);
    let doc = document(object(vec![], vec![]), vec![("LanguageConfiguration", lang)]);
    let expected = document(
        object(vec![], vec![]),
        vec![(
            "LanguageConfiguration",
            object(vec![("name", scalar(ScalarKind::String))], vec!["name"]),
        )],
    );
    let out = expand_aliases(doc, &default_alias_table());
    assert_eq!(out, expected);
}

#[test]
fn alias_without_definition_is_noop() {
    let doc = document(object(vec![], vec![]), vec![("Other", object(vec![], vec![]))]);
    let expected = document(object(vec![], vec![]), vec![("Other", object(vec![], vec![]))]);
    let out = expand_aliases(doc, &default_alias_table());
    assert_eq!(out, expected);
}

#[test]
fn override_relaxes_required_sets() {
    let lang = object(
        vec![
            ("name", scalar(ScalarKind::String)),
            ("source", scalar(ScalarKind::String)),
        ],
        vec!["name", "source"],
    );
    let server = object(
        vec![("command", scalar(ScalarKind::String))],
        vec!["command"],
    );
    let doc = document(
        object(vec![], vec![]),
        vec![("LanguageConfiguration", lang), ("LanguageServerConfiguration", server)],
    );

    let out = specialize_overrides(doc, &default_override_rules());

    let lang_out = get_def(&out, "LanguageConfiguration").unwrap();
    assert_eq!(required_of(lang_out), vec!["name".to_string()]);
    let server_out = get_def(&out, "LanguageServerConfiguration").unwrap();
    assert_eq!(required_of(server_out), Vec::<String>::new());
}

#[test]
fn override_required_stays_subset_of_properties() {
    let lang = object(
        vec![("name", scalar(ScalarKind::String))],
        vec!["name"],
    );
    let doc = document(object(vec![], vec![]), vec![("LanguageConfiguration", lang)]);
    let out = specialize_overrides(doc, &default_override_rules());
    for (_, node) in &out.definitions {
        if let SchemaNode::Object { properties, required, .. } = node {
            for r in required {
                assert!(properties.iter().any(|(k, _)| k == r));
            }
        }
    }
}

#[test]
fn override_clears_required_when_identifier_missing() {
    // The identifying field is forced required only when the definition
    // declares it; otherwise the required set is cleared, never left naming
    // an undeclared property.
    let lang = object(vec![("scope", scalar(ScalarKind::String))], vec!["scope"]);
    let doc = document(object(vec![], vec![]), vec![("LanguageConfiguration", lang)]);
    let out = specialize_overrides(doc, &default_override_rules());
    let lang_out = get_def(&out, "LanguageConfiguration").unwrap();
    assert_eq!(required_of(lang_out), Vec::<String>::new());
}

#[test]
fn override_missing_definition_is_noop() {
    let doc = document(object(vec![], vec![]), vec![("Other", object(vec![], vec![]))]);
    let expected = document(object(vec![], vec![]), vec![("Other", object(vec![], vec![]))]);
    let out = specialize_overrides(doc, &default_override_rules());
    assert_eq!(out, expected);
}

#[test]
fn attach_metadata_sets_title_and_description() {
    let doc = document(object(vec![("a", scalar(ScalarKind::String))], vec![]), vec![]);
    let out = attach_metadata(doc, "A title".to_string(), "A description".to_string());
    assert_eq!(out.title, Some("A title".to_string()));
    assert_eq!(out.description, Some("A description".to_string()));
    assert_eq!(out.root, object(vec![("a", scalar(ScalarKind::String))], vec![]));
}

#[test]
fn end_to_end_widget_override() {
    let widget = object(
        vec![
            ("name", scalar(ScalarKind::String)),
            ("size", scalar(ScalarKind::Number)),
        ],
        vec!["name", "size"],
    );
    let doc = document(object(vec![], vec![]), vec![("Widget", widget)]);
    let rules = vec![OverrideRule {
        definition: "Widget".to_string(),
        rule: RelaxRule::RequireOnly("name".to_string()),
    }];
    let aliases: Vec<AliasEntry> = Vec::new();

    let out = prepare_document(
        doc,
        true,
        &aliases,
        &rules,
        "Widgets".to_string(),
        "Widget overrides".to_string(),
    );

    let widget_out = get_def(&out, "Widget").unwrap();
    assert_eq!(required_of(widget_out), vec!["name".to_string()]);
    assert_eq!(additional_of(widget_out), &Some(AdditionalProps::Allow(false)));
    assert_eq!(out.title, Some("Widgets".to_string()));
    assert_eq!(out.description, Some("Widget overrides".to_string()));
}

#[test]
fn default_variant_keeps_required_sets() {
    let widget = object(
        vec![
            ("name", scalar(ScalarKind::String)),
            ("size", scalar(ScalarKind::Number)),
        ],
        vec!["name", "size"],
    );
    let doc = document(object(vec![], vec![]), vec![("Widget", widget)]);
    let rules = default_override_rules();
    let aliases = default_alias_table();

    let out = prepare_document(
        doc,
        false,
        &aliases,
        &rules,
        "Widgets".to_string(),
        "All widgets".to_string(),
    );

    let widget_out = get_def(&out, "Widget").unwrap();
    assert_eq!(
        required_of(widget_out),
        vec!["name".to_string(), "size".to_string()]
    );
}

#[test]
fn default_tables_hold_the_known_names() {
    let aliases = default_alias_table();
    assert_eq!(
        aliases,
        vec![AliasEntry {
            definition: "LanguageConfiguration".to_string(),
            canonical: "comment-tokens".to_string(),
            alias: "comment-token".to_string(),
        }]
    );
    let rules = default_override_rules();
    assert_eq!(
        rules,
        vec![
            OverrideRule {
                definition: "LanguageConfiguration".to_string(),
                rule: RelaxRule::RequireOnly("name".to_string()),
            },
            OverrideRule {
                definition: "LanguageServerConfiguration".to_string(),
                rule: RelaxRule::RequireNone,
            },
        ]
    );
}

#[test]
fn aliased_property_is_normalized_too() {
    // Aliases run before normalization, so the duplicated property gets the
    // closed-object treatment as well.
    let lang = object(
        vec![(
            "comment-tokens",
            object(vec![("token", scalar(ScalarKind::String))], vec![]),
        )],
        vec![],
    );
    let doc = document(object(vec![], vec![]), vec![("LanguageConfiguration", lang)]);
    let out = prepare_document(
        doc,
        false,
        &default_alias_table(),
        &default_override_rules(),
        "t".to_string(),
        "d".to_string(),
    );
    let def = get_def(&out, "LanguageConfiguration").unwrap();
    let alias = get_prop(def, "comment-token").unwrap();
    assert_eq!(additional_of(alias), &Some(AdditionalProps::Allow(false)));
    let canonical = get_prop(def, "comment-tokens").unwrap();
    assert_eq!(alias, canonical);
}
