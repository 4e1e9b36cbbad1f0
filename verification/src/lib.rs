//! Renders a sequence of JSON-like records as a box-drawn table, after a
//! pipeline of transforms: equality filtering, path-based selection,
//! one-level flattening of nested objects, and a stable sort by a field.

use vstd::prelude::*;

pub mod action;
pub mod args;
pub mod draw;
pub mod field_path;
pub mod table;
pub mod text;
pub mod value;

verus! {

/// Errors that stop the pipeline before any output is produced.
#[derive(Debug, Clone, Copy, PartialEq, Eq, Structural)]
pub enum Error {
    /// Malformed field path: `[]` not followed by a non-negative integer.
    InvalidPath,
    /// Malformed `field=value` filter expression.
    InvalidFilterExpression,
    /// The reserved select mode was requested.
    UnsupportedSelectMode,
    /// A selector's kind disagrees with the shape of the value it is
    /// applied to, or an append-mode selection targets a non-object.
    ShapeMismatch,
    /// A record that is not an object where a table row is required.
    NonObjectRecord,
    /// No field was observed in any record: nothing to draw.
    NoColumns,
    /// Flipped rendering is defined for exactly one record.
    SingleRecordExpected,
}

use vstd::string::StrSliceExecFns;
use vstd::string::StringExecFns;
use crate::action::Filter;
use crate::action::Flatten;
use crate::action::Select;
use crate::action::Sort;
use crate::action::filter::filter_spec;
use crate::action::filter::parse_filter_spec;
use crate::action::flatten::flatten_spec;
use crate::action::select::select_spec;
use crate::action::sort::sort_apply_spec;
use crate::args::Args;
use crate::field_path::parse_path_spec;
use crate::field_path::selectors_view;
use crate::table::Cell;
use crate::table::CellType;
use crate::table::CellView;
use crate::table::DrawOptions;
use crate::table::Header;
use crate::table::HeaderView;
use crate::table::cells_view;
use crate::table::headers_view;
use crate::table::rows_view;
use crate::table::draw::table_spec;
use crate::text::strs_view;
use crate::text::strs_contains;
use crate::value::Value;
use crate::value::ValueView;
use crate::value::obj_get;
use crate::value::obj_view;
use crate::value::records_view;
use crate::value::entries_get;

/// The rendered width a field value needs in a cell.
pub open spec fn width_of(v: ValueView) -> nat {
    match v {
        ValueView::Null => 4,
        ValueView::Bool(_) => 5,
        ValueView::Number(n) => n.text.len(),
        ValueView::String(s) => if s.len() + 2 <= usize::MAX {
            s.len() + 2
        } else {
            usize::MAX as nat
        },
        ValueView::Array(_) => 4,
        ValueView::Object(_) => 4,
    }
}

/// The rendered width a field value needs: `null` four characters,
/// booleans five, numbers their text, strings their text plus quotes,
/// arrays and objects their four-character placeholder.
pub fn len(value: &Value) -> (r: usize)
    ensures
        r as nat == width_of(value@),
{
    match value {
        Value::Null => 4,
        Value::Bool(_) => 5,
        Value::Number(n) => n.text.as_str().unicode_len(),
        Value::String(s) => {
            let l = s.as_str().unicode_len();
            if l > usize::MAX - 2 {
                usize::MAX
            } else {
                l + 2
            }
        }
        Value::Array(_) => 4,
        Value::Object(_) => 4,
    }
}

/// The cell a field value renders to.
pub open spec fn to_cell_spec(v: ValueView) -> CellView {
    match v {
        ValueView::Null => CellView { content: "null"@, cell_type: CellType::Null },
        ValueView::Bool(b) => CellView {
            content: if b {
                "true"@
            } else {
                "false"@
            },
            cell_type: CellType::Bool,
        },
        ValueView::Number(n) => CellView { content: n.text, cell_type: CellType::Number },
        ValueView::String(s) => CellView {
            content: "\""@ + s + "\""@,
            cell_type: CellType::String,
        },
        ValueView::Array(_) => CellView { content: "[..]"@, cell_type: CellType::Collapsed },
        ValueView::Object(_) => CellView { content: "{..}"@, cell_type: CellType::Collapsed },
    }
}

/// Formats one field value as a typed cell: scalars as their text,
/// strings quoted, arrays and objects collapsed to a placeholder.
pub fn to_cell(value: &Value) -> (r: Cell)
    ensures
        r@ == to_cell_spec(value@),
{
    match value {
        Value::Null => Cell::null(String::from_str("null")),
        Value::Bool(b) => {
            if *b {
                Cell::bool(String::from_str("true"))
            } else {
                Cell::bool(String::from_str("false"))
            }
        }
        Value::Number(n) => Cell::number(n.text.clone()),
        Value::String(s) => {
            let mut c = String::from_str("\"");
            c.append(s.as_str());
            c.append("\"");
            Cell::string(c)
        }
        Value::Array(_) => Cell::collapsed(String::from_str("[..]")),
        Value::Object(_) => Cell::collapsed(String::from_str("{..}")),
    }
}

pub open spec fn keys_of(o: Seq<(Seq<char>, ValueView)>) -> Seq<Seq<char>> {
    o.map_values(|e: (Seq<char>, ValueView)| e.0)
}

/// Folds new keys into the name list, keeping first-seen order.
pub open spec fn add_keys(acc: Seq<Seq<char>>, keys: Seq<Seq<char>>) -> Seq<Seq<char>>
    decreases keys.len(),
{
    if keys.len() == 0 {
        acc
    } else {
        add_keys(
            if acc.contains(keys[0]) {
                acc
            } else {
                acc.push(keys[0])
            },
            keys.skip(1),
        )
    }
}

pub open spec fn header_names_from(acc: Seq<Seq<char>>, records: Seq<ValueView>) -> Seq<
    Seq<char>,
>
    decreases records.len(),
{
    if records.len() == 0 {
        acc
    } else {
        header_names_from(
            match records[0] {
                ValueView::Object(o) => add_keys(acc, keys_of(o)),
                _ => acc,
            },
            records.skip(1),
        )
    }
}

/// The distinct field names over all object records, in first-seen
/// order.
pub open spec fn header_names(records: Seq<ValueView>) -> Seq<Seq<char>> {
    header_names_from(Seq::empty(), records)
}

/// Folds the width of `name`'s value in each record into the maximum.
pub open spec fn max_from(acc: nat, records: Seq<ValueView>, name: Seq<char>) -> nat
    decreases records.len(),
{
    if records.len() == 0 {
        acc
    } else {
        let w = match records[0] {
            ValueView::Object(o) => match obj_get(o, name) {
                Some(x) => width_of(x),
                None => 0,
            },
            _ => 0,
        };
        max_from(
            if w > acc {
                w
            } else {
                acc
            },
            records.skip(1),
            name,
        )
    }
}

/// A column's width: the name's own length, or the widest cell.
pub open spec fn header_width(records: Seq<ValueView>, name: Seq<char>) -> nat {
    max_from(name.len(), records, name)
}

pub open spec fn headers_spec(records: Seq<ValueView>) -> Seq<HeaderView> {
    Seq::new(
        header_names(records).len(),
        |i: int|
            HeaderView {
                name: header_names(records)[i],
                max_width: header_width(records, header_names(records)[i]),
            },
    )
}

/// Collects the headers: every object record's keys in first-seen
/// order, each with the width its column needs.
#[verifier::loop_isolation(false)]
pub fn get_headers(values: &Vec<Value>) -> (r: Vec<Header>)
    ensures
        headers_view(r@) == headers_spec(records_view(values@)),
{
    let ghost recs = records_view(values@);
    let mut names: Vec<String> = Vec::new();
    let mut k: usize = 0;
    proof {
        assert(recs.skip(0) =~= recs);
        assert(strs_view(names@) =~= Seq::<Seq<char>>::empty());
    }
    while k < values.len()
        invariant
            k <= values.len(),
            header_names(recs) == header_names_from(strs_view(names@), recs.skip(k as int)),
        decreases values.len() - k,
    {
        proof {
            assert(recs.skip(k as int)[0] == values@[k as int]@);
            assert(recs.skip(k as int).skip(1) =~= recs.skip(k as int + 1));
        }
        match &values[k] {
            Value::Object(entries) => {
                let ghost keys = keys_of(values@[k as int]@->Object_0);
                let ghost base = strs_view(names@);
                proof {
                    assert(values@[k as int]@->Object_0 =~= obj_view(entries@));
                    assert(keys =~= keys_of(obj_view(entries@)));
                    assert(keys.skip(0) =~= keys);
                }
                let mut t: usize = 0;
                while t < entries.len()
                    invariant
                        t <= entries.len(),
                        keys.len() == entries@.len(),
                        add_keys(base, keys) == add_keys(
                            strs_view(names@),
                            keys.skip(t as int),
                        ),
                    decreases entries.len() - t,
                {
                    proof {
                        assert(keys.skip(t as int)[0] == keys[t as int]);
                        assert(keys[t as int] == entries@[t as int].0@);
                        assert(keys.skip(t as int).skip(1) =~= keys.skip(t as int + 1));
                    }
                    let ghost cur = strs_view(names@);
                    if !strs_contains(&names, entries[t].0.as_str()) {
                        names.push(entries[t].0.clone());
                        proof {
                            assert(strs_view(names@) =~= cur.push(keys[t as int]));
                        }
                    }
                    t += 1;
                }
                proof {
                    assert(keys.skip(entries@.len() as int) =~= Seq::<Seq<char>>::empty());
                }
            }
            _ => {}
        }
        k += 1;
    }
    proof {
        assert(recs.skip(values@.len() as int) =~= Seq::<ValueView>::empty());
        assert(header_names(recs) == strs_view(names@));
    }
    let mut headers: Vec<Header> = Vec::new();
    let mut i: usize = 0;
    while i < names.len()
        invariant
            i <= names.len(),
            header_names(recs) == strs_view(names@),
            headers@.len() == i,
            forall|j: int|
                0 <= j < i ==> #[trigger] headers@[j]@ == (HeaderView {
                    name: strs_view(names@)[j],
                    max_width: header_width(recs, strs_view(names@)[j]),
                }),
        decreases names.len() - i,
    {
        let name = &names[i];
        let ghost nv = name@;
        let mut w: usize = name.as_str().unicode_len();
        let mut k2: usize = 0;
        proof {
            assert(recs.skip(0) =~= recs);
        }
        while k2 < values.len()
            invariant
                k2 <= values.len(),
                header_width(recs, nv) == max_from(w as nat, recs.skip(k2 as int), nv),
            decreases values.len() - k2,
        {
            proof {
                assert(recs.skip(k2 as int)[0] == values@[k2 as int]@);
                assert(recs.skip(k2 as int).skip(1) =~= recs.skip(k2 as int + 1));
            }
            let w0: usize = match &values[k2] {
                Value::Object(entries) => {
                    proof {
                        assert(values@[k2 as int]@->Object_0 =~= obj_view(entries@));
                    }
                    match entries_get(entries, name.as_str()) {
                        Some(x) => len(x),
                        None => 0,
                    }
                }
                _ => 0,
            };
            if w0 > w {
                w = w0;
            }
            k2 += 1;
        }
        proof {
            assert(recs.skip(values@.len() as int) =~= Seq::<ValueView>::empty());
        }
        headers.push(Header { name: name.clone(), max_width: w });
        i += 1;
    }
    proof {
        assert(headers_view(headers@) =~= headers_spec(recs));
    }
    headers
}

/// The cells of one record, one per header; a missing field renders as
/// an empty string cell. A record that is not an object yields no
/// cells.
pub open spec fn row_of(v: ValueView, headers: Seq<HeaderView>) -> Seq<CellView> {
    match v {
        ValueView::Object(o) => Seq::new(
            headers.len(),
            |i: int|
                match obj_get(o, headers[i].name) {
                    Some(x) => to_cell_spec(x),
                    None => CellView { content: ""@, cell_type: CellType::String },
                },
        ),
        _ => Seq::empty(),
    }
}

/// Builds one record's row of cells, one cell per header.
#[verifier::loop_isolation(false)]
pub fn value_to_vec(value: &Value, headers: &Vec<Header>) -> (r: Vec<Cell>)
    ensures
        cells_view(r@) == row_of(value@, headers_view(headers@)),
{
    let ghost hs = headers_view(headers@);
    match value {
        Value::Object(entries) => {
            proof {
                assert(value@->Object_0 =~= obj_view(entries@));
            }
            let mut row: Vec<Cell> = Vec::new();
            let mut i: usize = 0;
            while i < headers.len()
                invariant
                    i <= headers.len(),
                    row@.len() == i,
                    forall|j: int|
                        0 <= j < i ==> #[trigger] row@[j]@ == row_of(value@, hs)[j],
                decreases headers.len() - i,
            {
                proof {
                    assert(hs[i as int].name == headers@[i as int].name@);
                }
                let cell = match entries_get(entries, headers[i].name.as_str()) {
                    Some(x) => to_cell(x),
                    None => {
                        proof {
                            reveal_strlit("");
                            assert(""@ =~= Seq::<char>::empty());
                        }
                        Cell::string(String::new())
                    }
                };
                row.push(cell);
                proof {
                    assert(row@[i as int]@ == row_of(value@, hs)[i as int]);
                }
                i += 1;
            }
            proof {
                assert(cells_view(row@) =~= row_of(value@, hs));
            }
            row
        }
        _ => {
            let row: Vec<Cell> = Vec::new();
            proof {
                assert(cells_view(row@) =~= row_of(value@, hs));
            }
            row
        }
    }
}

pub open spec fn rows_of(records: Seq<ValueView>, headers: Seq<HeaderView>) -> Seq<
    Seq<CellView>,
> {
    records.map_values(|v: ValueView| row_of(v, headers))
}

pub open spec fn all_objects(records: Seq<ValueView>) -> bool {
    forall|i: int| 0 <= i < records.len() ==> (#[trigger] records[i]) is Object
}

/// What the whole pipeline renders for a record collection under a
/// configuration: filter, select, flatten, sort, then the table; or
/// the first error on the way.
pub open spec fn render_table_spec(records: Seq<ValueView>, args: Args, flip: bool) -> Result<
    Seq<char>,
    Error,
> {
    match parse_filter_spec(match args.filter {
        Some(f) => Some(f@),
        None => None,
    }) {
        Err(e) => Err(e),
        Ok(fexpr) => match parse_path_spec(args.select@) {
            Err(e) => Err(e),
            Ok(sels) => {
                if sels.len() > 0 && args.select_mode == args::SelectMode::Auto {
                    Err(Error::UnsupportedSelectMode)
                } else {
                    let filtered = filter_spec(records, fexpr);
                    match select_spec(filtered, args.select@, sels, args.select_mode) {
                        Err(e) => Err(e),
                        Ok(selected) => {
                            let flattened = flatten_spec(selected, strs_view(args.flatten@));
                            let sorted = sort_apply_spec(
                                flattened,
                                match args.sort {
                                    Some(f) => Some(f@),
                                    None => None,
                                },
                            );
                            let headers = headers_spec(sorted);
                            if headers.len() == 0 {
                                Err(Error::NoColumns)
                            } else if !all_objects(sorted) {
                                Err(Error::NonObjectRecord)
                            } else if flip && sorted.len() != 1 {
                                Err(Error::SingleRecordExpected)
                            } else {
                                Ok(
                                    table_spec(
                                        headers,
                                        rows_of(sorted, headers),
                                        args.color,
                                        flip,
                                    ),
                                )
                            }
                        }
                    }
                }
            }
        },
    }
}

/// Runs the whole pipeline and renders the table, or reports the first
/// error; nothing is rendered on an error.
#[verifier::loop_isolation(false)]
pub fn render_table(values: Vec<Value>, args: &Args, flip: bool) -> (r: Result<String, Error>)
    ensures
        match r {
            Ok(out) => render_table_spec(records_view(values@), *args, flip) == Ok::<
                Seq<char>,
                Error,
            >(out@),
            Err(e) => render_table_spec(records_view(values@), *args, flip) == Err::<
                Seq<char>,
                Error,
            >(e),
        },
{
    let ghost recs = records_view(values@);
    let filter = match Filter::parse(&args.filter) {
        Ok(f) => f,
        Err(e) => {
            return Err(e);
        }
    };
    let select = match Select::new(args.select.as_str(), args.select_mode) {
        Ok(s) => s,
        Err(e) => {
            return Err(e);
        }
    };
    let values = filter.apply(values);
    let values = match select.apply(values) {
        Ok(v) => v,
        Err(e) => {
            return Err(e);
        }
    };
    let flatten = Flatten { fields: args.flatten.clone() };
    let values = flatten.apply(values);
    let sort = Sort { field: args.sort.clone() };
    let values = sort.apply(values);
    let ghost sorted = records_view(values@);
    let headers = get_headers(&values);
    if headers.len() == 0 {
        proof {
            assert(headers_spec(sorted).len() == 0);
        }
        return Err(Error::NoColumns);
    }
    let mut rows: Vec<Vec<Cell>> = Vec::new();
    let mut k: usize = 0;
    while k < values.len()
        invariant
            k <= values.len(),
            rows@.len() == k,
            forall|j: int| 0 <= j < k ==> sorted[j] is Object,
            forall|j: int|
                0 <= j < k ==> cells_view(#[trigger] rows@[j]@) == rows_of(
                    sorted,
                    headers_view(headers@),
                )[j],
            forall|j: int| 0 <= j < k ==> #[trigger] rows@[j]@.len() == headers@.len(),
        decreases values.len() - k,
    {
        if !values[k].is_object() {
            proof {
                assert(!(sorted[k as int] is Object));
                assert(!all_objects(sorted));
            }
            return Err(Error::NonObjectRecord);
        }
        let row = value_to_vec(&values[k], &headers);
        proof {
            assert(cells_view(row@).len() == headers_view(headers@).len());
            assert(cells_view(row@).len() == headers@.len());
        }
        rows.push(row);
        k += 1;
    }
    proof {
        assert(all_objects(sorted));
    }
    if flip && values.len() != 1 {
        return Err(Error::SingleRecordExpected);
    }
    let out = table::draw::draw_table(
        &headers,
        &rows,
        DrawOptions { color: args.color, flip },
    );
    proof {
        assert(rows_view(rows@) =~= rows_of(sorted, headers_view(headers@)));
        assert(render_table_spec(recs, *args, flip) == Ok::<Seq<char>, Error>(out@));
    }
    Ok(out)
}

} // verus!
