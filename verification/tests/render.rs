use jsontab::args::{Args, Color, SelectMode};
use jsontab::draw;
use jsontab::table::{Cell, DrawOptions, Header};
use jsontab::value::{Number, Value};
use jsontab::{get_headers, len, render_table, to_cell, value_to_vec, Error};

fn obj(entries: Vec<(&str, Value)>) -> Value {
    Value::Object(
        entries
            .into_iter()
            .map(|(k, v)| (String::from(k), v))
            .collect(),
    )
}

fn num(n: u64) -> Value {
    Value::Number(Number::from_u64(n))
}

fn text(s: &str) -> Value {
    Value::String(String::from(s))
}

fn default_args() -> Args {
    Args {
        file: String::new(),
        flatten: vec![],
        color: Color::Never,
        select: String::from("."),
        select_mode: SelectMode::Auto,
        sort: None,
        filter: None,
    }
}

#[test]
fn end_to_end_two_records() {
    let values = vec![
        obj(vec![("a", num(1)), ("b", text("x"))]),
        obj(vec![("a", num(2))]),
    ];
    let out = render_table(values, &default_args(), false).unwrap();
    let expected = "┌─┬───┐\n\
                    │a│b  │\n\
                    ├─┼───┤\n\
                    │1│\"x\"│\n\
                    ├─┼───┤\n\
                    │2│   │\n\
                    └─┴───┘\n";
    assert_eq!(out, expected);
}

#[test]
fn flip_renders_field_value_rows() {
    let values = vec![obj(vec![("a", num(1)), ("b", num(2))])];
    let out = render_table(values, &default_args(), true).unwrap();
    let expected = "┌─┬─┐\n\
                    │a│1│\n\
                    ├─┼─┤\n\
                    │b│2│\n\
                    └─┴─┘\n";
    assert_eq!(out, expected);
}

#[test]
fn flip_needs_exactly_one_record() {
    let values = vec![obj(vec![("a", num(1))]), obj(vec![("a", num(2))])];
    assert_eq!(
        render_table(values, &default_args(), true).unwrap_err(),
        Error::SingleRecordExpected
    );
}

#[test]
fn empty_input_has_no_columns() {
    assert_eq!(
        render_table(vec![], &default_args(), false).unwrap_err(),
        Error::NoColumns
    );
}

#[test]
fn non_object_record_is_an_error() {
    let values = vec![obj(vec![("a", num(1))]), num(5)];
    assert_eq!(
        render_table(values, &default_args(), false).unwrap_err(),
        Error::NonObjectRecord
    );
}

#[test]
fn pipeline_applies_filter_select_flatten_sort() {
    let mut args = default_args();
    args.filter = Some(String::from("keep=true"));
    args.flatten = vec![String::from("m")];
    args.sort = Some(String::from("m.k"));
    let values = vec![
        obj(vec![
            ("keep", Value::Bool(true)),
            ("m", obj(vec![("k", num(2))])),
        ]),
        obj(vec![
            ("keep", Value::Bool(false)),
            ("m", obj(vec![("k", num(9))])),
        ]),
        obj(vec![
            ("keep", Value::Bool(true)),
            ("m", obj(vec![("k", num(1))])),
        ]),
    ];
    let out = render_table(values, &args, false).unwrap();
    let expected = "┌─────┬───┐\n\
                    │keep │m.k│\n\
                    ├─────┼───┤\n\
                    │true │1  │\n\
                    ├─────┼───┤\n\
                    │true │2  │\n\
                    └─────┴───┘\n";
    assert_eq!(out, expected);
}

#[test]
fn header_widths_follow_display_rules() {
    let values = vec![obj(vec![
        ("n", Value::Null),
        ("b", Value::Bool(true)),
        ("s", text("ab")),
        ("arr", Value::Array(vec![])),
        ("o", obj(vec![])),
    ])];
    let headers = get_headers(&values);
    let widths: Vec<(String, usize)> = headers
        .iter()
        .map(|h| (h.name.clone(), h.max_width))
        .collect();
    assert_eq!(
        widths,
        vec![
            (String::from("n"), 4),
            (String::from("b"), 5),
            (String::from("s"), 4),
            (String::from("arr"), 4),
            (String::from("o"), 4),
        ]
    );
}

#[test]
fn headers_keep_first_seen_order() {
    let values = vec![
        obj(vec![("b", num(1)), ("a", num(2))]),
        obj(vec![("c", num(3)), ("a", num(4))]),
    ];
    let headers = get_headers(&values);
    let names: Vec<String> = headers.iter().map(|h| h.name.clone()).collect();
    assert_eq!(names, vec!["b", "a", "c"]);
}

#[test]
fn cells_format_by_kind() {
    let c = to_cell(&Value::Null);
    assert_eq!(c.content, "null");
    let c = to_cell(&text("v"));
    assert_eq!(c.content, "\"v\"");
    let c = to_cell(&Value::Array(vec![]));
    assert_eq!(c.content, "[..]");
    let c = to_cell(&obj(vec![]));
    assert_eq!(c.content, "{..}");
    let c = to_cell(&num(17));
    assert_eq!(c.content, "17");
}

#[test]
fn missing_field_renders_empty_string_cell() {
    let values = vec![obj(vec![("a", num(1))]), obj(vec![("b", num(2))])];
    let headers = get_headers(&values);
    let row = value_to_vec(&values[1], &headers);
    assert_eq!(row[0].content, "");
    assert_eq!(row[1].content, "2");
}

#[test]
fn widths_of_values() {
    assert_eq!(len(&Value::Null), 4);
    assert_eq!(len(&Value::Bool(false)), 5);
    assert_eq!(len(&num(123)), 3);
    assert_eq!(len(&text("ab")), 4);
    assert_eq!(len(&Value::Array(vec![])), 4);
}

#[test]
fn float_numbers_render_their_text() {
    let v = Value::Number(Number::from_float_text("2.5").unwrap());
    assert_eq!(to_cell(&v).content, "2.5");
    assert_eq!(len(&v), 3);
}

#[test]
fn draw_box_smallest() {
    assert_eq!(draw::draw_box(2, 2), "┌┐\n└┘");
}

#[test]
fn draw_box_interior() {
    assert_eq!(draw::draw_box(4, 4), "┌──┐\n│  │\n└──┘");
}

#[test]
fn pad_left_aligns_left() {
    assert_eq!(draw::pad_left("ab", 4), "ab  ");
    assert_eq!(draw::pad_left("abcd", 2), "abcd");
}

#[test]
fn row_builds_one_line() {
    let r: String = draw::row(4, '<', '-', '>').into_iter().collect();
    assert_eq!(r, "<-->");
}

#[test]
fn plain_draw_table_matches_layout() {
    let headers = vec![
        draw::Header {
            name: String::from("a"),
            max_width: 1,
        },
        draw::Header {
            name: String::from("b"),
            max_width: 2,
        },
    ];
    let rows = vec![vec![String::from("x"), String::from("yz")]];
    let out = draw::draw_table(&headers, &rows);
    let expected = "┌─┬──┐\n\
                    │a│b │\n\
                    ├─┼──┤\n\
                    │x│yz│\n\
                    └─┴──┘\n";
    assert_eq!(out, expected);
}

#[test]
fn draw_table_uncolored() {
    let headers = vec![Header {
        name: String::from("h"),
        max_width: 2,
    }];
    let rows = vec![vec![Cell::string(String::from("\"a\""))]];
    let out = jsontab::table::draw_table(
        &headers,
        &rows,
        DrawOptions {
            color: Color::Never,
            flip: false,
        },
    );
    // A cell wider than its column is not truncated.
    let expected = "┌──┐\n\
                    │h │\n\
                    ├──┤\n\
                    │\"a\"│\n\
                    └──┘\n";
    assert_eq!(out, expected);
}
