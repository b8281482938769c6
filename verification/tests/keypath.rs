use toml_patch::errors::EditError;
use toml_patch::keypath::{Entry, Key};

#[test]
fn key_simple() {
    let k = Key::parse("a.b").unwrap();
    assert_eq!(k.segments, vec!["a".to_string(), "b".to_string()]);
    assert_eq!(k.raw, "a.b");
}

#[test]
fn key_single_segment() {
    let k = Key::parse("server").unwrap();
    assert_eq!(k.segments, vec!["server".to_string()]);
    assert_eq!(k.raw, "server");
}

#[test]
fn key_drops_empty_segments() {
    for raw in ["a..b", ".a.b", "a.b.", ".a..b."] {
        let k = Key::parse(raw).unwrap();
        assert_eq!(k.segments, vec!["a".to_string(), "b".to_string()]);
        assert_eq!(k.raw, raw);
    }
}

#[test]
fn key_empty_fails() {
    assert!(matches!(Key::parse(""), Err(EditError::MalformedKey)));
}

#[test]
fn key_single_dot_fails() {
    assert!(matches!(Key::parse("."), Err(EditError::MalformedKey)));
}

#[test]
fn key_double_dot_fails() {
    assert!(matches!(Key::parse(".."), Err(EditError::MalformedKey)));
}

#[test]
fn entry_basic() {
    let e = Entry::parse("a.b=1").unwrap();
    assert_eq!(e.key.segments, vec!["a".to_string(), "b".to_string()]);
    assert_eq!(e.key.raw, "a.b");
    assert_eq!(e.value, "1");
}

#[test]
fn entry_second_equals_drops_rest() {
    let e = Entry::parse("a=1=2").unwrap();
    assert_eq!(e.key.segments, vec!["a".to_string()]);
    assert_eq!(e.value, "1");
}

#[test]
fn entry_without_equals_fails() {
    assert!(matches!(Entry::parse("novalue"), Err(EditError::MalformedEntry)));
}

#[test]
fn entry_empty_value() {
    let e = Entry::parse("a=").unwrap();
    assert_eq!(e.key.segments, vec!["a".to_string()]);
    assert_eq!(e.value, "");
}

#[test]
fn entry_empty_key_fails() {
    assert!(matches!(Entry::parse("=x"), Err(EditError::MalformedKey)));
}

#[test]
fn entry_bad_key_without_equals_fails_as_key() {
    assert!(matches!(Entry::parse("..."), Err(EditError::MalformedKey)));
}

#[test]
fn entry_dotted_key_normalized() {
    let e = Entry::parse(".x..y.=hello").unwrap();
    assert_eq!(e.key.segments, vec!["x".to_string(), "y".to_string()]);
    assert_eq!(e.key.raw, ".x..y.");
    assert_eq!(e.value, "hello");
}

#[test]
fn malformed_key_message() {
    assert_eq!(
        EditError::MalformedKey.message(),
        "Key must be form of KEY[.SUBKEY ...]"
    );
}

#[test]
fn malformed_entry_message() {
    assert_eq!(
        EditError::MalformedEntry.message(),
        "Entry must be form of KEY[.SUBKEY...]=VALUE"
    );
}

#[test]
fn key_not_found_message() {
    let e = EditError::KeyNotFound("x.y".to_string());
    assert_eq!(e.message(), "could not find `x.y`");
}
