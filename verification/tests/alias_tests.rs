use neutron_router::alias::{parse_aliases, resolve_alias, AliasTable};

#[test]
fn parse_keeps_string_entries_in_object_order() {
    let text = "{\"Sol\": \"Jackson's Lighthouse\", \"Colonia\": \"Magellan\", \"Depth\": 7}";
    let table = parse_aliases(text).unwrap();
    // serde_json's object iterates sorted by key; the number entry is skipped.
    assert_eq!(table.pairs, vec![
        ("Colonia".to_string(), "Magellan".to_string()),
        ("Sol".to_string(), "Jackson's Lighthouse".to_string()),
    ]);
}

#[test]
fn parse_rejects_non_objects() {
    assert!(parse_aliases("[1, 2, 3]").is_none());
    assert!(parse_aliases("\"just a string\"").is_none());
    assert!(parse_aliases("not json at all").is_none());
    assert!(parse_aliases("").is_none());
}

#[test]
fn parse_empty_object() {
    let table = parse_aliases("{}").unwrap();
    assert_eq!(table.pairs.len(), 0);
}

#[test]
fn resolve_marked_alias() {
    let table = parse_aliases("{\"Sol\": \"Jackson's Lighthouse\"}").unwrap();
    assert_eq!(resolve_alias("JP:Sol", &table), "Jackson's Lighthouse");
}

#[test]
fn resolve_unknown_alias_passes_through() {
    let table = parse_aliases("{\"Sol\": \"Jackson's Lighthouse\"}").unwrap();
    assert_eq!(resolve_alias("JP:Nowhere", &table), "JP:Nowhere");
}

#[test]
fn resolve_without_marker_passes_through() {
    let table = parse_aliases("{\"Sol\": \"Jackson's Lighthouse\"}").unwrap();
    assert_eq!(resolve_alias("Sol", &table), "Sol");
    assert_eq!(resolve_alias("", &table), "");
    assert_eq!(resolve_alias("JP", &table), "JP");
}

#[test]
fn resolve_against_empty_table() {
    let table = AliasTable::new();
    assert_eq!(resolve_alias("JP:Sol", &table), "JP:Sol");
}

#[test]
fn lookup_finds_first_match() {
    let table = AliasTable {
        pairs: vec![
            ("a".to_string(), "first".to_string()),
            ("a".to_string(), "second".to_string()),
        ],
    };
    assert_eq!(table.lookup(&"a".to_string()), Some("first".to_string()));
    assert_eq!(table.lookup(&"b".to_string()), None);
}
