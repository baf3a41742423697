use moonwave::diagnostic::Diagnostics;
use moonwave::doc_comment::DocComment;
use moonwave::doc_entry::{DocEntryParseArguments, FunctionDocEntry, FunctionType};
use moonwave::realm::Realm;
use moonwave::tags::{
    CustomTag, DeprecatedTag, ErrorTag, FieldTag, ParamTag, ReturnTag, SinceTag, Tag, WithinTag,
};

fn comment() -> DocComment {
    DocComment { text: "--- a doc comment".to_string() }
}

fn args_with<'a>(tags: Vec<Tag>, source: &'a DocComment) -> DocEntryParseArguments<'a> {
    DocEntryParseArguments {
        name: "frobnicate".to_string(),
        desc: "Does the thing.".to_string(),
        within: Some("MyModule".to_string()),
        tags,
        source,
    }
}

fn param(name: &str) -> ParamTag {
    ParamTag { name: name.to_string(), desc: format!("parameter {}", name) }
}

#[test]
fn accepted_tags_preserve_order() {
    let source = comment();
    let tags = vec![
        Tag::Param(param("a")),
        Tag::Error(ErrorTag { desc: "first error".to_string() }),
        Tag::Param(param("b")),
        Tag::Return(ReturnTag { desc: "the result".to_string() }),
        Tag::Custom(CustomTag { name: "icon".to_string(), value: "gear".to_string() }),
        Tag::Param(param("c")),
        Tag::Error(ErrorTag { desc: "second error".to_string() }),
    ];
    let entry = FunctionDocEntry::parse(args_with(tags, &source), FunctionType::Method).unwrap();
    let names: Vec<&str> = entry.params.iter().map(|p| p.name.as_str()).collect();
    assert_eq!(names, vec!["a", "b", "c"]);
    assert_eq!(entry.returns.len(), 1);
    assert_eq!(entry.returns[0].desc, "the result");
    assert_eq!(entry.tags.len(), 1);
    assert_eq!(entry.tags[0].name, "icon");
    assert_eq!(entry.errors.len(), 2);
    assert_eq!(entry.errors[0].desc, "first error");
    assert_eq!(entry.errors[1].desc, "second error");
}

#[test]
fn rejected_tags_each_get_one_diagnostic() {
    let source = comment();
    let within_tag = Tag::Within(WithinTag { name: "Elsewhere".to_string() });
    let field_tag = Tag::Field(FieldTag {
        name: "size".to_string(),
        desc: "a field".to_string(),
    });
    let tags = vec![
        Tag::Param(param("a")),
        within_tag.clone(),
        Tag::Server,
        field_tag.clone(),
        Tag::Return(ReturnTag { desc: "r".to_string() }),
        Tag::ReadOnly,
    ];
    let diagnostics =
        FunctionDocEntry::parse(args_with(tags, &source), FunctionType::Method).unwrap_err();
    assert_eq!(diagnostics.len(), 3);
    assert_eq!(diagnostics.diagnostics[0].tag, within_tag);
    assert_eq!(diagnostics.diagnostics[1].tag, field_tag);
    assert_eq!(diagnostics.diagnostics[2].tag, Tag::ReadOnly);
    for d in &diagnostics.diagnostics {
        assert_eq!(d.message, "This tag is unused by function doc entries.");
    }
}

#[test]
fn realm_set_deduplicates() {
    let source = comment();
    let tags = vec![Tag::Server, Tag::Server, Tag::Client];
    let entry = FunctionDocEntry::parse(args_with(tags, &source), FunctionType::Method).unwrap();
    assert_eq!(entry.realm.len(), 2);
    assert!(entry.realm.contains(Realm::Server));
    assert!(entry.realm.contains(Realm::Client));
}

#[test]
fn marker_flags_are_idempotent() {
    let source = comment();
    let tags = vec![Tag::Private, Tag::Private];
    let entry = FunctionDocEntry::parse(args_with(tags, &source), FunctionType::Method).unwrap();
    assert!(entry.private);
    assert!(!entry.unreleased);
    assert!(!entry.yields);
    assert!(!entry.ignore);
}

#[test]
fn singular_fields_keep_last_value() {
    let source = comment();
    let tags = vec![
        Tag::Since(SinceTag { version: "1.0".to_string() }),
        Tag::Since(SinceTag { version: "2.0".to_string() }),
        Tag::Deprecated(DeprecatedTag {
            version: "0.9".to_string(),
            desc: "use old_thing".to_string(),
        }),
        Tag::Deprecated(DeprecatedTag {
            version: "1.5".to_string(),
            desc: "use new_thing".to_string(),
        }),
    ];
    let entry = FunctionDocEntry::parse(args_with(tags, &source), FunctionType::Method).unwrap();
    assert_eq!(entry.since, Some("2.0".to_string()));
    let deprecated = entry.deprecated.unwrap();
    assert_eq!(deprecated.version, "1.5");
    assert_eq!(deprecated.desc, "use new_thing");
}

#[test]
fn mixed_valid_tags_populate_all_fields() {
    let source = comment();
    let tags = vec![
        Tag::Param(param("a")),
        Tag::Return(ReturnTag { desc: "x".to_string() }),
        Tag::Server,
        Tag::Private,
    ];
    let entry = FunctionDocEntry::parse(args_with(tags, &source), FunctionType::Method).unwrap();
    assert_eq!(entry.params.len(), 1);
    assert_eq!(entry.params[0].name, "a");
    assert_eq!(entry.returns.len(), 1);
    assert_eq!(entry.returns[0].desc, "x");
    assert_eq!(entry.realm.len(), 1);
    assert!(entry.realm.contains(Realm::Server));
    assert!(!entry.realm.contains(Realm::Client));
    assert!(entry.private);
    assert_eq!(entry.deprecated, None);
}

#[test]
fn one_unknown_tag_fails_with_one_diagnostic() {
    let source = comment();
    let unknown = Tag::Within(WithinTag { name: "Other".to_string() });
    let tags = vec![Tag::Param(param("a")), unknown.clone()];
    let diagnostics =
        FunctionDocEntry::parse(args_with(tags, &source), FunctionType::Method).unwrap_err();
    assert_eq!(diagnostics.len(), 1);
    assert_eq!(diagnostics.diagnostics[0].tag, unknown);
}

#[test]
fn empty_tag_sequence_yields_defaults() {
    let source = comment();
    let entry =
        FunctionDocEntry::parse(args_with(Vec::new(), &source), FunctionType::Static).unwrap();
    assert_eq!(entry.name, "frobnicate");
    assert_eq!(entry.desc, "Does the thing.");
    assert_eq!(entry.within, "MyModule");
    assert_eq!(entry.function_type, FunctionType::Static);
    assert!(entry.params.is_empty());
    assert!(entry.returns.is_empty());
    assert!(entry.tags.is_empty());
    assert!(entry.errors.is_empty());
    assert_eq!(entry.realm.len(), 0);
    assert!(!entry.private);
    assert!(!entry.unreleased);
    assert!(!entry.yields);
    assert!(!entry.ignore);
    assert_eq!(entry.since, None);
    assert_eq!(entry.deprecated, None);
    assert_eq!(entry.source, &source);
}

#[test]
fn base_fields_carry_over() {
    let source = comment();
    let tags = vec![Tag::Unreleased, Tag::Yields, Tag::Ignore];
    let entry = FunctionDocEntry::parse(args_with(tags, &source), FunctionType::Method).unwrap();
    assert_eq!(entry.name, "frobnicate");
    assert_eq!(entry.within, "MyModule");
    assert_eq!(entry.function_type, FunctionType::Method);
    assert!(entry.unreleased);
    assert!(entry.yields);
    assert!(entry.ignore);
    assert!(!entry.private);
}

#[test]
fn tag_diagnostic_references_the_tag() {
    let tag = Tag::ReadOnly;
    let d = tag.clone().diagnostic("not applicable here");
    assert_eq!(d.tag, tag);
    assert_eq!(d.message, "not applicable here");
}

#[test]
fn diagnostics_bundle_from_vec() {
    let d = Tag::ReadOnly.diagnostic("one");
    let bundle = Diagnostics::from(vec![d.clone()]);
    assert_eq!(bundle.len(), 1);
    assert_eq!(bundle.diagnostics[0], d);
}
