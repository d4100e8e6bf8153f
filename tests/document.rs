use catalyst::path::{
    vdf_collect_objects_by_key, vdf_edit_object_path, vdf_ensure_object_path_mut,
    vdf_find_object_value, vdf_get_or_insert_object_mut, vdf_remove_entry, vdf_set_text_entry,
    EntryEdit,
};
use catalyst::vdf::{
    escape_vdf_text, parse_vdf_document, parse_vdf_tokens, serialize_vdf_document,
    serialize_vdf_entry, tokenize_vdf, VdfError, VdfToken, VdfValue,
};

fn text(v: &VdfValue) -> &str {
    match v {
        VdfValue::Text(t) => t.as_str(),
        VdfValue::Object(_) => panic!("expected a leaf"),
    }
}

fn entries(v: &VdfValue) -> &Vec<(String, VdfValue)> {
    match v {
        VdfValue::Object(e) => e,
        VdfValue::Text(_) => panic!("expected an object"),
    }
}

fn same(a: &VdfValue, b: &VdfValue) -> bool {
    match (a, b) {
        (VdfValue::Text(x), VdfValue::Text(y)) => x == y,
        (VdfValue::Object(x), VdfValue::Object(y)) => {
            x.len() == y.len()
                && x.iter().zip(y.iter()).all(|(p, q)| p.0 == q.0 && same(&p.1, &q.1))
        }
        _ => false,
    }
}

#[test]
fn duplicate_keys_are_kept_in_order() {
    let doc = parse_vdf_document("\"a\" \"1\" \"a\" \"2\"").unwrap();
    let e = entries(&doc);
    assert_eq!(e.len(), 2);
    assert_eq!(e[0].0, "a");
    assert_eq!(text(&e[0].1), "1");
    assert_eq!(e[1].0, "a");
    assert_eq!(text(&e[1].1), "2");
}

#[test]
fn tokenizer_handles_comments_escapes_bom_and_nul() {
    let tokens = tokenize_vdf("\u{feff}// note\n\"k\\t\\\"x\\q\" bare{\0}");
    assert_eq!(tokens.len(), 4);
    match &tokens[0] {
        VdfToken::Text(t) => assert_eq!(t, "k\t\"xq"),
        _ => panic!("expected text"),
    }
    match &tokens[1] {
        VdfToken::Text(t) => assert_eq!(t, "bare"),
        _ => panic!("expected text"),
    }
    assert!(matches!(tokens[2], VdfToken::OpenBrace));
    assert!(matches!(tokens[3], VdfToken::CloseBrace));
}

#[test]
fn single_slash_starts_a_bare_token() {
    let tokens = tokenize_vdf("/path/x \"v\"");
    match &tokens[0] {
        VdfToken::Text(t) => assert_eq!(t, "/path/x"),
        _ => panic!("expected text"),
    }
    assert_eq!(tokens.len(), 2);
}

#[test]
fn nested_objects_parse() {
    let doc = parse_vdf_document("\"root\"\n{\n\t\"inner\"\t\"v\"\n\t\"sub\" { }\n}\n").unwrap();
    let root = vdf_find_object_value(&doc, "ROOT").unwrap();
    assert_eq!(text(vdf_find_object_value(root, "inner").unwrap()), "v");
    assert_eq!(entries(vdf_find_object_value(root, "sub").unwrap()).len(), 0);
}

#[test]
fn malformed_documents_are_rejected() {
    assert!(matches!(parse_vdf_document("{"), Err(VdfError::UnexpectedOpenBrace)));
    assert!(matches!(parse_vdf_document("\"k\""), Err(VdfError::MissingValue(_))));
    assert!(matches!(parse_vdf_document("\"k\" { \"x\" }"), Err(VdfError::MissingValue(_))));
    assert!(matches!(parse_vdf_document("\"a\" \"1\" } \"b\""), Err(VdfError::TrailingTokens)));
    assert!(parse_vdf_document("\"a\" \"1\" }").is_ok());
    assert!(parse_vdf_document("").is_ok());
}

#[test]
fn parse_tokens_stops_after_closing_brace() {
    let tokens = tokenize_vdf("\"a\" \"1\" } \"b\" \"2\"");
    let mut cursor = 0usize;
    let e = parse_vdf_tokens(&tokens, &mut cursor).unwrap();
    assert_eq!(e.len(), 1);
    assert_eq!(cursor, 3);
}

#[test]
fn serializer_writes_tabs_and_escapes() {
    let doc = parse_vdf_document("\"a\" { \"b\" \"x\\\"y\" }").unwrap();
    assert_eq!(serialize_vdf_document(&doc), "\"a\"\n{\n\t\"b\"\t\"x\\\"y\"\n}\n");
    assert_eq!(escape_vdf_text("a\\b\"c\nd\re\tf"), "a\\\\b\\\"c\\nd\\re\\tf");
    let mut out = String::new();
    serialize_vdf_entry("k", &VdfValue::Text(String::from("v")), 2, &mut out);
    assert_eq!(out, "\t\t\"k\"\t\"v\"\n");
    assert_eq!(serialize_vdf_document(&VdfValue::Text(String::from("t"))), "\"t\"\n");
}

#[test]
fn round_trip_preserves_structure() {
    let source = "// c\n\"Root\" { \"a\" \"1\" \"a\" \"2\" \"n\" { \"deep\" \"tab\\there\" } \"q\" \"\\\\\" }";
    let doc = parse_vdf_document(source).unwrap();
    let again = parse_vdf_document(&serialize_vdf_document(&doc)).unwrap();
    assert!(same(&doc, &again));
    assert_eq!(serialize_vdf_document(&again), serialize_vdf_document(&doc));
}

#[test]
fn find_ignores_ascii_case() {
    let doc = parse_vdf_document("\"Apps\" { \"1\" \"x\" }").unwrap();
    let a = vdf_find_object_value(&doc, "Apps").unwrap();
    let b = vdf_find_object_value(&doc, "apps").unwrap();
    assert!(same(a, b));
    assert!(vdf_find_object_value(&doc, "app").is_none());
    assert!(vdf_find_object_value(&VdfValue::Text(String::from("x")), "apps").is_none());
}

#[test]
fn collect_objects_finds_every_depth() {
    let doc = parse_vdf_document(
        "\"apps\" { \"1\" \"x\" } \"s\" { \"APPS\" { \"2\" \"y\" } \"apps\" \"leaf\" }",
    )
    .unwrap();
    let mut found = Vec::new();
    vdf_collect_objects_by_key(&doc, "apps", &mut found);
    assert_eq!(found.len(), 2);
    assert_eq!(entries(found[0])[0].0, "1");
    assert_eq!(entries(found[1])[0].0, "2");
}

#[test]
fn ensure_path_replaces_a_leaf_with_an_object() {
    let mut doc = parse_vdf_document("\"a\" \"leaf\" \"z\" \"1\"").unwrap();
    vdf_ensure_object_path_mut(&mut doc, &["A", "b"]);
    let e = entries(&doc);
    assert_eq!(e[0].0, "a");
    let inner = entries(&e[0].1);
    assert_eq!(inner.len(), 1);
    assert_eq!(inner[0].0, "b");
    assert_eq!(entries(&inner[0].1).len(), 0);
    assert_eq!(e[1].0, "z");
}

#[test]
fn get_or_insert_appends_when_missing() {
    let mut doc = VdfValue::Text(String::from("x"));
    let i = vdf_get_or_insert_object_mut(&mut doc, "k");
    assert_eq!(i, 0);
    let j = vdf_get_or_insert_object_mut(&mut doc, "K");
    assert_eq!(j, 0);
    let k = vdf_get_or_insert_object_mut(&mut doc, "other");
    assert_eq!(k, 1);
}

#[test]
fn set_and_remove_entries() {
    let mut doc = parse_vdf_document("\"A\" \"1\" \"b\" \"2\" \"a\" \"3\"").unwrap();
    vdf_set_text_entry(&mut doc, "a", "9");
    assert_eq!(text(&entries(&doc)[0].1), "9");
    assert_eq!(entries(&doc)[0].0, "A");
    assert_eq!(text(&entries(&doc)[2].1), "3");
    vdf_set_text_entry(&mut doc, "c", "4");
    assert_eq!(entries(&doc)[3].0, "c");
    vdf_remove_entry(&mut doc, "a");
    let e = entries(&doc);
    assert_eq!(e.len(), 2);
    assert_eq!(e[0].0, "b");
    assert_eq!(e[1].0, "c");
    let mut leaf = VdfValue::Text(String::from("t"));
    vdf_remove_entry(&mut leaf, "a");
    assert_eq!(text(&leaf), "t");
}

#[test]
fn edits_at_a_path() {
    let mut doc = parse_vdf_document("\"x\" \"1\"").unwrap();
    let edits = vec![
        EntryEdit::SetText(String::from("k"), String::from("v")),
        EntryEdit::Remove(String::from("x")),
    ];
    vdf_edit_object_path(&mut doc, &["p", "q"], &edits);
    assert_eq!(
        serialize_vdf_document(&doc),
        "\"x\"\t\"1\"\n\"p\"\n{\n\t\"q\"\n\t{\n\t\t\"k\"\t\"v\"\n\t}\n}\n"
    );
}
