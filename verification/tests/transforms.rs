use jsontab::Error;
use jsontab::action::{Filter, Flatten, Select, Sort};
use jsontab::args::SelectMode;
use jsontab::value::{Number, Value};

fn obj(entries: Vec<(&str, Value)>) -> Value {
    Value::Object(
        entries
            .into_iter()
            .map(|(k, v)| (String::from(k), v))
            .collect(),
    )
}

fn num(n: u64) -> Value {
    Value::Number(Number::from_u64(n))
}

fn fnum(text: &str) -> Value {
    Value::Number(Number::from_float_text(text).unwrap())
}

fn text(s: &str) -> Value {
    Value::String(String::from(s))
}

fn keys(v: &Value) -> Vec<String> {
    match v {
        Value::Object(entries) => entries.iter().map(|e| e.0.clone()).collect(),
        _ => panic!("not an object"),
    }
}

fn get<'a>(v: &'a Value, key: &str) -> &'a Value {
    match v {
        Value::Object(entries) => {
            &entries.iter().find(|e| e.0 == key).expect("missing key").1
        }
        _ => panic!("not an object"),
    }
}

#[test]
fn select_only_wraps_resolved_value() {
    let r = obj(vec![("a", obj(vec![("b", num(5))]))]);
    let select = Select::new("a.b", SelectMode::Only).unwrap();
    let out = select.apply(vec![r]).unwrap();
    assert_eq!(out.len(), 1);
    assert_eq!(keys(&out[0]), vec!["a.b"]);
    assert!(matches!(get(&out[0], "a.b"), Value::Number(n) if n.int_val == Some(5)));
}

#[test]
fn select_empty_path_is_identity() {
    let r = obj(vec![("a", num(1))]);
    let select = Select::new(".", SelectMode::Only).unwrap();
    let out = select.apply(vec![r]).unwrap();
    assert_eq!(keys(&out[0]), vec!["a"]);
}

#[test]
fn select_append_adds_field() {
    let r = obj(vec![("a", obj(vec![("b", num(5))]))]);
    let select = Select::new("a.b", SelectMode::Append).unwrap();
    let out = select.apply(vec![r]).unwrap();
    assert_eq!(keys(&out[0]), vec!["a", "a.b"]);
    assert!(matches!(get(&out[0], "a.b"), Value::Number(n) if n.int_val == Some(5)));
}

#[test]
fn select_missing_field_resolves_null() {
    let r = obj(vec![("a", num(1))]);
    let select = Select::new("nope", SelectMode::Only).unwrap();
    let out = select.apply(vec![r]).unwrap();
    assert!(matches!(get(&out[0], "nope"), Value::Null));
}

#[test]
fn select_out_of_bounds_index_resolves_null() {
    let r = obj(vec![("a", Value::Array(vec![num(1)]))]);
    let select = Select::new("a.[].7", SelectMode::Only).unwrap();
    let out = select.apply(vec![r]).unwrap();
    assert!(matches!(get(&out[0], "a.[].7"), Value::Null));
}

#[test]
fn select_index_into_object_is_shape_mismatch() {
    let r = obj(vec![("a", num(1))]);
    let select = Select::new("[].0", SelectMode::Only).unwrap();
    assert_eq!(select.apply(vec![r]).unwrap_err(), Error::ShapeMismatch);
}

#[test]
fn select_field_from_array_is_shape_mismatch() {
    let r = obj(vec![("a", Value::Array(vec![num(1)]))]);
    let select = Select::new("a.b", SelectMode::Only).unwrap();
    assert_eq!(select.apply(vec![r]).unwrap_err(), Error::ShapeMismatch);
}

#[test]
fn select_append_to_scalar_is_shape_mismatch() {
    let select = Select::new("a", SelectMode::Append).unwrap();
    assert_eq!(select.apply(vec![num(3)]).unwrap_err(), Error::ShapeMismatch);
}

#[test]
fn select_auto_mode_is_rejected() {
    assert_eq!(
        Select::new("a", SelectMode::Auto).unwrap_err(),
        Error::UnsupportedSelectMode
    );
}

#[test]
fn select_auto_mode_with_empty_path_is_identity() {
    let select = Select::new(".", SelectMode::Auto).unwrap();
    let out = select.apply(vec![obj(vec![("a", num(1))])]).unwrap();
    assert_eq!(keys(&out[0]), vec!["a"]);
}

#[test]
fn flatten_promotes_inner_keys() {
    let r = obj(vec![
        ("meta", obj(vec![("x", num(1)), ("y", num(2))])),
        ("k", num(3)),
    ]);
    let flatten = Flatten {
        fields: vec![String::from("meta")],
    };
    let out = flatten.apply(vec![r]);
    assert_eq!(keys(&out[0]), vec!["k", "meta.x", "meta.y"]);
    assert!(matches!(get(&out[0], "meta.x"), Value::Number(n) if n.int_val == Some(1)));
}

#[test]
fn flatten_absent_field_is_noop() {
    let r = obj(vec![("a", num(1))]);
    let flatten = Flatten {
        fields: vec![String::from("nope")],
    };
    let out = flatten.apply(vec![r]);
    assert_eq!(keys(&out[0]), vec!["a"]);
    assert!(matches!(get(&out[0], "a"), Value::Number(n) if n.int_val == Some(1)));
}

#[test]
fn flatten_scalar_field_keeps_record() {
    let r = obj(vec![("s", num(5)), ("t", num(6))]);
    let flatten = Flatten {
        fields: vec![String::from("s")],
    };
    let out = flatten.apply(vec![r]);
    assert_eq!(keys(&out[0]), vec!["s", "t"]);
    assert!(matches!(get(&out[0], "s"), Value::Number(n) if n.int_val == Some(5)));
}

#[test]
fn filter_keeps_exact_boolean_matches() {
    let records = vec![
        obj(vec![("active", Value::Bool(true))]),
        obj(vec![("active", Value::Bool(false))]),
        obj(vec![("x", num(1))]),
    ];
    let filter = Filter::parse(&Some(String::from("active=true"))).unwrap();
    let out = filter.apply(records);
    assert_eq!(out.len(), 1);
    assert!(matches!(get(&out[0], "active"), Value::Bool(true)));
}

#[test]
fn filter_integer_never_matches_fractional() {
    let records = vec![obj(vec![("n", fnum("5.0"))])];
    let filter = Filter::parse(&Some(String::from("n=5"))).unwrap();
    assert_eq!(filter.apply(records).len(), 0);
}

#[test]
fn filter_fractional_never_matches_integer() {
    let records = vec![obj(vec![("n", num(5))])];
    let filter = Filter::parse(&Some(String::from("n=5.0"))).unwrap();
    assert_eq!(filter.apply(records).len(), 0);
}

#[test]
fn filter_matches_equal_floats_written_differently() {
    let records = vec![obj(vec![("n", fnum("1.5"))])];
    let filter = Filter::parse(&Some(String::from("n=1.50"))).unwrap();
    assert_eq!(filter.apply(records).len(), 1);
    let records = vec![obj(vec![("n", fnum("1.5"))])];
    let filter = Filter::parse(&Some(String::from("n=2.5"))).unwrap();
    assert_eq!(filter.apply(records).len(), 0);
}

#[test]
fn filter_leading_dot_float() {
    let records = vec![obj(vec![("n", fnum("0.5"))])];
    let filter = Filter::parse(&Some(String::from("n=.5"))).unwrap();
    assert_eq!(filter.apply(records).len(), 1);
}

#[test]
fn filter_string_literal() {
    let records = vec![
        obj(vec![("s", text("ok"))]),
        obj(vec![("s", text("no"))]),
    ];
    let filter = Filter::parse(&Some(String::from("s=ok"))).unwrap();
    assert_eq!(filter.apply(records).len(), 1);
}

#[test]
fn filter_integer_literal_with_leading_zero() {
    let records = vec![obj(vec![("n", num(5))])];
    let filter = Filter::parse(&Some(String::from("n=05"))).unwrap();
    assert_eq!(filter.apply(records).len(), 1);
}

#[test]
fn filter_none_is_identity() {
    let filter = Filter::parse(&None).unwrap();
    let out = filter.apply(vec![num(1), text("a")]);
    assert_eq!(out.len(), 2);
}

#[test]
fn filter_malformed_expressions_fail() {
    assert_eq!(
        Filter::parse(&Some(String::from("abc"))).unwrap_err(),
        Error::InvalidFilterExpression
    );
    assert_eq!(
        Filter::parse(&Some(String::from("a=b=c"))).unwrap_err(),
        Error::InvalidFilterExpression
    );
    assert_eq!(
        Filter::parse(&Some(String::from("a="))).unwrap_err(),
        Error::InvalidFilterExpression
    );
    assert_eq!(
        Filter::parse(&Some(String::from("=b"))).unwrap_err(),
        Error::InvalidFilterExpression
    );
    assert_eq!(
        Filter::parse(&Some(String::from("a=."))).unwrap_err(),
        Error::InvalidFilterExpression
    );
}

#[test]
fn filter_integer_too_large_fails() {
    // One past the largest value an unsigned 64-bit integer holds.
    assert_eq!(
        Filter::parse(&Some(String::from("n=18446744073709551616"))).unwrap_err(),
        Error::InvalidFilterExpression
    );
    let records = vec![obj(vec![("n", num(u64::MAX))])];
    let filter =
        Filter::parse(&Some(String::from("n=18446744073709551615"))).unwrap();
    assert_eq!(filter.apply(records).len(), 1);
}

#[test]
fn duplicate_keys_first_binding_wins() {
    let r = Value::Object(vec![
        (String::from("k"), num(1)),
        (String::from("k"), num(2)),
    ]);
    let filter = Filter::parse(&Some(String::from("k=1"))).unwrap();
    assert_eq!(filter.apply(vec![r]).len(), 1);
}

#[test]
fn filter_dotted_text_is_a_string() {
    // Two dots make the right-hand side literal text, not a number.
    let records = vec![obj(vec![("v", text("1.2.3"))])];
    let filter = Filter::parse(&Some(String::from("v=1.2.3"))).unwrap();
    assert_eq!(filter.apply(records).len(), 1);
}

fn sort_by(field: &str, records: Vec<Value>) -> Vec<Value> {
    let sort = Sort {
        field: Some(String::from(field)),
    };
    sort.apply(records)
}

#[test]
fn sort_is_stable_and_orders_numbers() {
    let out = sort_by(
        "k",
        vec![
            obj(vec![("k", num(2)), ("tag", text("a"))]),
            obj(vec![("k", num(1)), ("tag", text("b"))]),
            obj(vec![("k", num(1)), ("tag", text("c"))]),
        ],
    );
    let tags: Vec<String> = out
        .iter()
        .map(|r| match get(r, "tag") {
            Value::String(s) => s.clone(),
            _ => panic!("tag is not a string"),
        })
        .collect();
    assert_eq!(tags, vec!["b", "c", "a"]);
}

#[test]
fn sort_missing_field_goes_last() {
    let out = sort_by(
        "k",
        vec![
            obj(vec![("other", num(9))]),
            obj(vec![("k", num(1))]),
        ],
    );
    assert_eq!(keys(&out[0]), vec!["k"]);
    assert_eq!(keys(&out[1]), vec!["other"]);
}

#[test]
fn sort_orders_kinds_strings_numbers_bools_null() {
    let out = sort_by(
        "v",
        vec![
            obj(vec![("v", Value::Null)]),
            obj(vec![("v", Value::Bool(true))]),
            obj(vec![("v", num(1))]),
            obj(vec![("v", text("s"))]),
        ],
    );
    assert!(matches!(get(&out[0], "v"), Value::String(_)));
    assert!(matches!(get(&out[1], "v"), Value::Number(_)));
    assert!(matches!(get(&out[2], "v"), Value::Bool(_)));
    assert!(matches!(get(&out[3], "v"), Value::Null));
}

#[test]
fn sort_orders_floats_numerically() {
    // A string comparison would put "10.25" before "2.5".
    let out = sort_by(
        "v",
        vec![
            obj(vec![("v", fnum("10.25"))]),
            obj(vec![("v", fnum("2.5"))]),
        ],
    );
    assert!(matches!(get(&out[0], "v"), Value::Number(n) if n.text == "2.5"));
    assert!(matches!(get(&out[1], "v"), Value::Number(n) if n.text == "10.25"));
}

#[test]
fn sort_orders_strings_and_bools() {
    let out = sort_by(
        "v",
        vec![
            obj(vec![("v", text("b"))]),
            obj(vec![("v", text("a"))]),
        ],
    );
    assert!(matches!(get(&out[0], "v"), Value::String(s) if s == "a"));
    let out = sort_by(
        "v",
        vec![
            obj(vec![("v", Value::Bool(true))]),
            obj(vec![("v", Value::Bool(false))]),
        ],
    );
    assert!(matches!(get(&out[0], "v"), Value::Bool(false)));
}

#[test]
fn sort_without_field_is_identity() {
    let sort = Sort { field: None };
    let out = sort.apply(vec![
        obj(vec![("b", num(2))]),
        obj(vec![("a", num(1))]),
    ]);
    assert_eq!(keys(&out[0]), vec!["b"]);
    assert_eq!(keys(&out[1]), vec!["a"]);
}
