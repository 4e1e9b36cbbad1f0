use jsontab::Error;
use jsontab::field_path::{FieldPath, Selector};

#[test]
fn parse_two_fields() {
    let fp = FieldPath::parse("a.b").unwrap();
    assert_eq!(fp.selectors.len(), 2);
    assert!(matches!(&fp.selectors[0], Selector::Field(s) if s == "a"));
    assert!(matches!(&fp.selectors[1], Selector::Field(s) if s == "b"));
    assert_eq!(fp.path_str, "a.b");
}

#[test]
fn parse_array_index() {
    let fp = FieldPath::parse("a.[].0").unwrap();
    assert_eq!(fp.selectors.len(), 2);
    assert!(matches!(&fp.selectors[0], Selector::Field(s) if s == "a"));
    assert!(matches!(&fp.selectors[1], Selector::IntoArray(0)));
}

#[test]
fn parse_trailing_marker_fails() {
    assert_eq!(FieldPath::parse("a.[]").unwrap_err(), Error::InvalidPath);
}

#[test]
fn parse_non_integer_index_fails() {
    assert_eq!(FieldPath::parse("a.[].x").unwrap_err(), Error::InvalidPath);
}

#[test]
fn parse_dot_is_empty() {
    let fp = FieldPath::parse(".").unwrap();
    assert_eq!(fp.selectors.len(), 0);
    assert_eq!(fp.path_str, ".");
}

#[test]
fn parse_tolerates_extra_dots() {
    let fp = FieldPath::parse("..a...b.").unwrap();
    assert_eq!(fp.selectors.len(), 2);
    assert!(matches!(&fp.selectors[0], Selector::Field(s) if s == "a"));
    assert!(matches!(&fp.selectors[1], Selector::Field(s) if s == "b"));
}

#[test]
fn parse_huge_index_fails() {
    // Larger than a 32-bit index allows.
    assert_eq!(
        FieldPath::parse("a.[].4294967296").unwrap_err(),
        Error::InvalidPath
    );
}

#[test]
fn parse_max_index_ok() {
    let fp = FieldPath::parse("[].4294967295").unwrap();
    assert!(matches!(&fp.selectors[0], Selector::IntoArray(4294967295)));
}
