use geode_installer::vdf::{parse, parse_vdf_recursive, KeyValueDocument};

fn pairs(document: &KeyValueDocument) -> Vec<(String, String)> {
    let mut out = Vec::new();
    for i in 0..document.len() {
        out.push((document.key_at(i).clone(), document.value_at(i).clone()));
    }
    out
}

fn pair(key: &str, value: &str) -> (String, String) {
    (key.to_string(), value.to_string())
}

#[test]
fn parses_nested_block_with_dotted_keys() {
    let document =
        parse("\"AppState\"{ \"appid\" \"322170\" \"installdir\" \"Geometry Dash\" }");
    assert_eq!(
        pairs(&document),
        vec![
            pair("AppState.appid", "322170"),
            pair("AppState.installdir", "Geometry Dash"),
        ]
    );
    assert_eq!(
        document.get("AppState.installdir"),
        Some(&"Geometry Dash".to_string())
    );
    assert_eq!(document.get("AppState.name"), None);
}

#[test]
fn parses_library_index() {
    let text = "\"libraryfolders\"\n{\n\t\"0\"\n\t{\n\t\t\"path\"\t\t\"/home/u/.local/share/Steam\"\n\t\t\"apps\"\n\t\t{\n\t\t\t\"228980\"\t\t\"1\"\n\t\t}\n\t}\n\t\"1\"\n\t{\n\t\t\"path\"\t\t\"/mnt/games\"\n\t}\n}\n";
    let document = parse(text);
    assert_eq!(
        pairs(&document),
        vec![
            pair("libraryfolders.0.path", "/home/u/.local/share/Steam"),
            pair("libraryfolders.0.apps.228980", "1"),
            pair("libraryfolders.1.path", "/mnt/games"),
        ]
    );
}

#[test]
fn later_duplicate_overwrites_in_place() {
    let document = parse("\"a\" \"1\" \"b\" \"2\" \"a\" \"3\"");
    assert_eq!(pairs(&document), vec![pair("a", "3"), pair("b", "2")]);
}

#[test]
fn comments_and_stray_characters_are_skipped() {
    let document = parse("// head\n{ x \"k\" // no value\n \"a\" \"b\" / \"c\"\t\"d\"");
    assert_eq!(pairs(&document), vec![pair("a", "b"), pair("c", "d")]);
}

#[test]
fn closing_brace_at_top_level_ends_the_scan() {
    let document = parse("\"a\" \"1\" } \"b\" \"2\"");
    assert_eq!(pairs(&document), vec![pair("a", "1")]);
}

#[test]
fn unterminated_tokens_run_to_the_end() {
    assert_eq!(pairs(&parse("\"a\" \"unfinished")), vec![pair("a", "unfinished")]);
    assert_eq!(pairs(&parse("\"a")), vec![]);
    assert_eq!(pairs(&parse("\"a\" {  \"b\" \"c\"")), vec![pair("a.b", "c")]);
    assert_eq!(pairs(&parse("")), vec![]);
}

#[test]
fn recursive_scan_stops_behind_closing_brace() {
    let content: Vec<char> = "\"k\" \"v\" } \"rest\" \"x\"".chars().collect();
    let mut pos = 0usize;
    let mut document = KeyValueDocument::new();
    parse_vdf_recursive(&content, &mut pos, &mut document, "top");
    assert_eq!(pos, 9);
    assert_eq!(pairs(&document), vec![pair("top.k", "v")]);
    parse_vdf_recursive(&content, &mut pos, &mut document, "");
    assert_eq!(pos, content.len());
    assert_eq!(pairs(&document), vec![pair("top.k", "v"), pair("rest", "x")]);
}

#[test]
fn block_prefixes_nest_and_end_with_their_block() {
    let document = parse(
        "\"a\" { \"b\" { \"c\" \"1\" } \"d\" \"2\" } \"e\" \"3\"",
    );
    assert_eq!(
        pairs(&document),
        vec![pair("a.b.c", "1"), pair("a.d", "2"), pair("e", "3")]
    );
}

#[test]
fn tokens_keep_what_stands_between_their_quotes() {
    let document = parse("\"a key\"\"{ // }\"\n\"\" \"\"");
    assert_eq!(pairs(&document), vec![pair("a key", "{ // }"), pair("", "")]);
}

#[test]
fn key_before_comment_is_dropped() {
    let document = parse("\"lost\" // \"x\" \"y\"\n\"k\" \"v\"");
    assert_eq!(pairs(&document), vec![pair("k", "v")]);
}

#[test]
fn document_is_filled_in_order_of_first_insertion() {
    let mut document = KeyValueDocument::new();
    assert_eq!(document.len(), 0);
    document.insert("x".to_string(), "1".to_string());
    document.insert("y".to_string(), "2".to_string());
    document.insert("x".to_string(), "3".to_string());
    assert_eq!(document.len(), 2);
    assert_eq!(document.key_at(0), "x");
    assert_eq!(document.value_at(0), "3");
    assert_eq!(document.key_at(1), "y");
    assert_eq!(document.get("y"), Some(&"2".to_string()));
    assert_eq!(document.get("z"), None);
}

#[test]
fn dotted_key_joins_below_a_prefix_only() {
    assert_eq!(geode_installer::vdf::dotted_key("", "k"), "k");
    assert_eq!(geode_installer::vdf::dotted_key("a.b", "k"), "a.b.k");
    assert_eq!(geode_installer::vdf::dotted_key("a", ""), "a.");
}
