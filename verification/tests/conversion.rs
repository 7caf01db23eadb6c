use toml2json::json::{Block, Entry, Json};

#[test]
fn block_fragment_for_string_value() {
    let json = Json::from_source("t.toml", "[a]\nx = \"hi\"\n").unwrap();
    let doc = json.to_document_text().unwrap();
    assert_eq!(doc, "{\"a\": {\"x\": \"hi\"}}");
}

#[test]
fn passthrough_literals_unchanged() {
    let e = Entry::new("n = 42").unwrap();
    assert_eq!(e.to_raw_json().unwrap(), "\"n\": 42");
    let e = Entry::new("b = true").unwrap();
    assert_eq!(e.to_raw_json().unwrap(), "\"b\": true");
    let e = Entry::new("arr = [1,2,3]").unwrap();
    assert_eq!(e.to_raw_json().unwrap(), "\"arr\": [1,2,3]");
}

#[test]
fn passthrough_literals_in_document() {
    let src = "[a]\nn = 42\nb = true\narr = [1,2,3]\n";
    let json = Json::from_source("t.toml", src).unwrap();
    let out = json.to_pretty_json().unwrap();
    let v: serde_json::Value = serde_json::from_str(&out).unwrap();
    assert_eq!(v["a"]["n"].as_i64(), Some(42));
    assert_eq!(v["a"]["b"].as_bool(), Some(true));
    assert_eq!(v["a"]["arr"].as_array().unwrap().len(), 3);
    assert_eq!(v["a"]["arr"][0].as_i64(), Some(1));
}

#[test]
fn inline_object_value() {
    let e = Entry::new("obj = { x = 1, y = \"z\" }").unwrap();
    assert_eq!(e.to_raw_json().unwrap(), "\"obj\": {\"x\": 1,\"y\": \"z\"}");
}

#[test]
fn nested_inline_object_and_array() {
    let e = Entry::new("obj = { a = { b = 2 }, c = [1, 2] }").unwrap();
    assert_eq!(e.to_raw_json().unwrap(), "\"obj\": {\"a\": {\"b\": 2},\"c\": [1, 2]}");
}

#[test]
fn empty_inline_object() {
    let e = Entry::new("o = {}").unwrap();
    assert_eq!(e.to_raw_json().unwrap(), "\"o\": {}");
    let e = Entry::new("o = {   }").unwrap();
    assert_eq!(e.to_raw_json().unwrap(), "\"o\": {}");
}

#[test]
fn entry_splits_at_first_equals() {
    let e = Entry::new("a = b = c").unwrap();
    assert_eq!(e.key, "a");
    assert_eq!(e.value, "b = c");
}

#[test]
fn converted_document_parses_as_json() {
    let src = "# demo\n[server]\nhost = \"localhost\"\nport = 8080\n\n[client]\nretries = 3\nopts = { debug = true, level = 2 }\n";
    let json = Json::from_source("demo.toml", src).unwrap();
    let out = json.to_pretty_json().unwrap();
    let v: serde_json::Value = serde_json::from_str(&out).unwrap();
    assert_eq!(v["server"]["host"].as_str(), Some("localhost"));
    assert_eq!(v["server"]["port"].as_i64(), Some(8080));
    assert_eq!(v["client"]["opts"]["debug"].as_bool(), Some(true));
}

#[test]
fn pretty_output_is_indented() {
    let json = Json::from_source("t.toml", "[a]\nx = \"hi\"\n").unwrap();
    let out = json.to_pretty_json().unwrap();
    assert_eq!(out, "{\n  \"a\": {\n    \"x\": \"hi\"\n  }\n}");
}

#[test]
fn duplicate_block_names_last_write_wins() {
    let src = "[a]\nx = 1\n[a]\ny = 2\n";
    let json = Json::from_source("t.toml", src).unwrap();
    let out = json.to_pretty_json().unwrap();
    let v: serde_json::Value = serde_json::from_str(&out).unwrap();
    assert_eq!(v["a"]["y"].as_i64(), Some(2));
    assert!(v["a"].get("x").is_none());
}

#[test]
fn blank_line_truncates_block() {
    let src = "[a]\nx = 1\n\ny = 2\n[b]\nz = 3\n";
    let json = Json::from_source("t.toml", src).unwrap();
    let doc = json.to_document_text().unwrap();
    assert_eq!(doc, "{\"a\": {\"x\": 1},\"b\": {\"z\": 3}}");
}

#[test]
fn comment_line_truncates_block() {
    let src = "[a]\nx = 1\n# note\ny = 2\n";
    let json = Json::from_source("t.toml", src).unwrap();
    let doc = json.to_document_text().unwrap();
    assert_eq!(doc, "{\"a\": {\"x\": 1}}");
}

#[test]
fn stray_lines_before_first_header_dropped() {
    let src = "x = 1\n[a]\ny = 2\n";
    let json = Json::from_source("t.toml", src).unwrap();
    let doc = json.to_document_text().unwrap();
    assert_eq!(doc, "{\"a\": {\"y\": 2}}");
}

#[test]
fn block_name_kept_verbatim() {
    let src = "[a.b c]\nx = 1\n";
    let json = Json::from_source("t.toml", src).unwrap();
    let doc = json.to_document_text().unwrap();
    assert_eq!(doc, "{\"a.b c\": {\"x\": 1}}");
}

#[test]
fn block_new_collects_entries() {
    let lines = vec![String::from("x = 1"), String::from("y = \"two\"")];
    let b = Block::new("blk", &lines).unwrap();
    assert_eq!(b.name, "blk");
    assert_eq!(b.entries.len(), 2);
    assert_eq!(b.entries[0].key, "x");
    assert_eq!(b.entries[1].value, "\"two\"");
    assert_eq!(b.to_json().unwrap(), "\"blk\": {\"x\": 1,\"y\": \"two\"}");
}

#[test]
fn is_block_classifies_lines() {
    assert!(Json::is_block("[a]"));
    assert!(Json::is_block("   [a]  "));
    assert!(!Json::is_block("# [a]"));
    assert!(!Json::is_block(""));
    assert!(!Json::is_block("x = 1"));
}

#[test]
fn parse_block_reads_until_boundary() {
    let lines: Vec<String> =
        vec!["[a]", "x = 1", "y = 2", "[b]"].into_iter().map(String::from).collect();
    let b = Json::parse_block(&lines, 0).unwrap();
    assert_eq!(b.name, "a");
    assert_eq!(b.entries.len(), 2);
}
