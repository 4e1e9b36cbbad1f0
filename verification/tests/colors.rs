//! The colorized output is checked against the `colored` crate, which
//! the escape sequences were modelled on, with its global override
//! forced on so the environment cannot disable them.

use colored::Colorize;
use jsontab::args::{Args, Color, SelectMode};
use jsontab::table::draw::{format_cell, format_header};
use jsontab::table::Cell;
use jsontab::value::{Number, Value};

#[test]
fn colorized_cells_match_colored_crate() {
    colored::control::set_override(true);
    let mine = format_cell(&Cell::number(String::from("7")), 1, Color::Always);
    assert_eq!(mine, "7".yellow().to_string());
    let mine = format_cell(&Cell::string(String::from("\"s\"")), 3, Color::Always);
    assert_eq!(mine, "\"s\"".green().to_string());
    let mine = format_cell(&Cell::null(String::from("null")), 4, Color::Always);
    assert_eq!(mine, "null".white().dimmed().to_string());
    let mine = format_cell(&Cell::collapsed(String::from("[..]")), 4, Color::Always);
    assert_eq!(mine, "[..]".white().dimmed().to_string());
}

#[test]
fn colorized_headers_are_bold_blue() {
    colored::control::set_override(true);
    let mine = format_header("ab", 2, Color::Always);
    assert_eq!(mine, "ab".blue().bold().to_string());
}

#[test]
fn colorized_cells_are_padded_before_coloring() {
    colored::control::set_override(true);
    let mine = format_cell(&Cell::number(String::from("7")), 3, Color::Always);
    assert_eq!(mine, "7  ".yellow().to_string());
}

#[test]
fn boolean_cells_stay_plain() {
    colored::control::set_override(true);
    let mine = format_cell(&Cell::bool(String::from("true")), 4, Color::Always);
    assert_eq!(mine, "true");
}

#[test]
fn colorized_table_end_to_end() {
    let values = vec![Value::Object(vec![(
        String::from("a"),
        Value::Number(Number::from_u64(1)),
    )])];
    let args = Args {
        file: String::new(),
        flatten: vec![],
        color: Color::Always,
        select: String::from("."),
        select_mode: SelectMode::Auto,
        sort: None,
        filter: None,
    };
    let out = jsontab::render_table(values, &args, false).unwrap();
    let expected = "┌─┐\n│\u{1b}[1;34ma\u{1b}[0m│\n├─┤\n│\u{1b}[33m1\u{1b}[0m│\n└─┘\n";
    assert_eq!(out, expected);
    // Auto is rendered as capable; the caller resolves capability.
    let values = vec![Value::Object(vec![(
        String::from("a"),
        Value::Number(Number::from_u64(1)),
    )])];
    let args = Args {
        color: Color::Auto,
        ..args
    };
    let out = jsontab::render_table(values, &args, false).unwrap();
    assert_eq!(out, expected);
}

#[test]
fn never_mode_emits_no_escapes() {
    let mine = format_cell(&Cell::number(String::from("7")), 2, Color::Never);
    assert_eq!(mine, "7 ");
    let mine = format_header("h", 1, Color::Never);
    assert_eq!(mine, "h");
}
