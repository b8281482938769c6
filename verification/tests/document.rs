use toml_edit::DocumentMut;
use toml_patch::doc::{edit_document, TomlDoc};
use toml_patch::errors::EditError;
use toml_patch::keypath::{Entry, Key};

fn key(s: &str) -> Key {
    Key::parse(s).unwrap()
}

fn entry(s: &str) -> Entry {
    Entry::parse(s).unwrap()
}

fn reparse(s: &str) -> DocumentMut {
    s.parse::<DocumentMut>().unwrap()
}

#[test]
fn round_trip_unchanged() {
    let text = "# top comment\n[a] # table comment\nb = 1 # value comment\n\nc = 'x'\n";
    let doc = TomlDoc::parse(text).unwrap();
    assert_eq!(doc.render(), text);
}

#[test]
fn round_trip_through_edit_document() {
    let text = "# only a comment\ntitle = \"t\"   # spaced\n";
    let out = edit_document(text, &Vec::new(), &Vec::new()).unwrap().render();
    assert_eq!(out, text);
}

#[test]
fn parse_failure_is_parse_error() {
    assert!(matches!(TomlDoc::parse("= bad"), Err(EditError::Parse(_))));
}

#[test]
fn assign_under_value_fails() {
    let mut doc = TomlDoc::parse("a = 1\n").unwrap();
    let r = doc.assign_entry(&entry("a.b=2"));
    match r {
        Err(EditError::KeyNotFound(raw)) => assert_eq!(raw, "a.b"),
        other => panic!("expected KeyNotFound, got {:?}", other),
    }
}

#[test]
fn assign_through_value_mid_path_fails() {
    let mut doc = TomlDoc::parse("a = 1\n").unwrap();
    let r = doc.assign_entry(&entry("a.b.c=2"));
    assert!(matches!(r, Err(EditError::KeyNotFound(_))));
}

#[test]
fn delete_then_assign_recreates_table() {
    let mut doc = TomlDoc::parse("[a]\nb = 1\n").unwrap();
    doc.delete_key(&key("a.b")).unwrap();
    doc.assign_entry(&entry("a.b.c=2")).unwrap();
    let out = doc.render();
    let d = reparse(&out);
    assert!(d["a"]["b"].is_table());
    assert_eq!(d["a"]["b"]["c"].as_str(), Some("2"));
}

#[test]
fn assign_creates_nested_tables() {
    let mut doc = TomlDoc::parse("").unwrap();
    doc.assign_entry(&entry("x.y.z=hello")).unwrap();
    let out = doc.render();
    let d = reparse(&out);
    assert!(d["x"].is_table());
    assert!(d["x"]["y"].is_table());
    assert_eq!(d["x"]["y"]["z"].as_str(), Some("hello"));
}

#[test]
fn delete_missing_fails_and_leaves_document() {
    let text = "a = 1\n";
    let mut doc = TomlDoc::parse(text).unwrap();
    let r = doc.delete_key(&key("missing"));
    match r {
        Err(EditError::KeyNotFound(raw)) => assert_eq!(raw, "missing"),
        other => panic!("expected KeyNotFound, got {:?}", other),
    }
    assert_eq!(doc.render(), text);
}

#[test]
fn delete_removes_value() {
    let mut doc = TomlDoc::parse("a = 1\nb = 2\n").unwrap();
    doc.delete_key(&key("a")).unwrap();
    let out = doc.render();
    let d = reparse(&out);
    assert!(d.get("a").is_none());
    assert_eq!(d["b"].as_integer(), Some(2));
}

#[test]
fn delete_nested_keeps_siblings() {
    let mut doc = TomlDoc::parse("[a]\nb = 1\nc = 2\n").unwrap();
    doc.delete_key(&key("a.b")).unwrap();
    let out = doc.render();
    let d = reparse(&out);
    assert!(d["a"].as_table().unwrap().get("b").is_none());
    assert_eq!(d["a"]["c"].as_integer(), Some(2));
}

#[test]
fn delete_absent_twice_fails() {
    let mut doc = TomlDoc::parse("a = 1\n").unwrap();
    doc.delete_key(&key("a")).unwrap();
    assert!(matches!(doc.delete_key(&key("a")), Err(EditError::KeyNotFound(_))));
}

#[test]
fn assign_overwrites_value_as_string() {
    let mut doc = TomlDoc::parse("a = 1\n").unwrap();
    doc.assign_entry(&entry("a=2")).unwrap();
    let d = reparse(&doc.render());
    assert_eq!(d["a"].as_str(), Some("2"));
}

#[test]
fn assign_replaces_table() {
    let mut doc = TomlDoc::parse("[a]\nb = 1\n").unwrap();
    doc.assign_entry(&entry("a=flat")).unwrap();
    let d = reparse(&doc.render());
    assert_eq!(d["a"].as_str(), Some("flat"));
}

#[test]
fn assign_empty_value() {
    let mut doc = TomlDoc::parse("").unwrap();
    doc.assign_entry(&entry("a=")).unwrap();
    let d = reparse(&doc.render());
    assert_eq!(d["a"].as_str(), Some(""));
}

#[test]
fn deletes_run_before_assignments() {
    let text = "a = 0\n";
    let deletes = vec![key("a")];
    let entries = vec![entry("a=1")];
    let out = edit_document(text, &deletes, &entries).unwrap().render();
    let d = reparse(&out);
    assert_eq!(d["a"].as_str(), Some("1"));
}

#[test]
fn later_edit_sees_earlier_effect() {
    let text = "[a]\nb = 1\n";
    let deletes = vec![key("a.b")];
    let entries = vec![entry("a.b.c=2")];
    let out = edit_document(text, &deletes, &entries).unwrap().render();
    let d = reparse(&out);
    assert_eq!(d["a"]["b"]["c"].as_str(), Some("2"));
}

#[test]
fn first_failing_edit_aborts_run() {
    let text = "a = 1\nb = 2\n";
    let mut doc = TomlDoc::parse(text).unwrap();
    let deletes = vec![key("missing"), key("a")];
    let r = doc.apply_edits(&deletes, &Vec::new());
    match r {
        Err(EditError::KeyNotFound(raw)) => assert_eq!(raw, "missing"),
        other => panic!("expected KeyNotFound, got {:?}", other),
    }
    assert_eq!(doc.render(), text);
}

#[test]
fn edit_document_keeps_untouched_formatting() {
    let text = "# header\nkeep = 'v' # keep this\ndrop = 1\n";
    let deletes = vec![key("drop")];
    let out = edit_document(text, &deletes, &Vec::new()).unwrap().render();
    assert!(out.contains("# header"));
    assert!(out.contains("keep = 'v' # keep this"));
    assert!(!out.contains("drop"));
}

#[test]
fn edit_document_parse_error() {
    let r = edit_document("not [ valid", &Vec::new(), &Vec::new());
    assert!(matches!(r, Err(EditError::Parse(_))));
}

#[test]
fn deep_failure_leaves_rendering_unchanged() {
    let text = "a = 1\nz = 2\n";
    let mut doc = TomlDoc::parse(text).unwrap();
    assert!(matches!(doc.delete_key(&key("a.x")), Err(EditError::KeyNotFound(_))));
    assert_eq!(doc.render(), text);
}

#[test]
fn deep_assign_failure_leaves_rendering_unchanged() {
    let text = "[t]\nx = 1\ny = 2\n";
    let mut doc = TomlDoc::parse(text).unwrap();
    assert!(matches!(doc.assign_entry(&entry("t.x.deep=9")), Err(EditError::KeyNotFound(_))));
    assert_eq!(doc.render(), text);
}

#[test]
fn assign_keeps_sibling_order() {
    let mut doc = TomlDoc::parse("[t]\nx = 1\ny = 2\n").unwrap();
    doc.assign_entry(&entry("t.x=9")).unwrap();
    let out = doc.render();
    let ix = out.find("x = ").unwrap();
    let iy = out.find("y = 2").unwrap();
    assert!(ix < iy);
    let d = reparse(&out);
    assert_eq!(d["t"]["x"].as_str(), Some("9"));
    assert_eq!(d["t"]["y"].as_integer(), Some(2));
}

#[test]
fn deep_delete_keeps_parent_position() {
    let mut doc = TomlDoc::parse("[a]\nb = 1\nkeep = 3\n\n[z]\nc = 2\n").unwrap();
    doc.delete_key(&key("a.b")).unwrap();
    let out = doc.render();
    let ia = out.find("[a]").unwrap();
    let iz = out.find("[z]").unwrap();
    assert!(ia < iz);
    assert!(out.find("keep = 3").unwrap() < iz);
}
