//! The box-drawing renderer: a top border, a header row, a separator
//! before each content row, and a bottom border, every cell padded to
//! its column's width. With `flip`, a single record is rendered as a
//! two-column field/value table, one field per row. Colorization wraps
//! cells in ANSI escape sequences by their kind.

use vstd::prelude::*;

verus! {

use vstd::string::StrSliceExecFns;
use vstd::string::StringExecFns;
use crate::args::Color;
use crate::table::Cell;
use crate::table::CellType;
use crate::table::CellView;
use crate::table::DrawOptions;
use crate::table::Header;
use crate::table::HeaderView;
use crate::table::cells_view;
use crate::table::headers_view;
use crate::table::rows_view;
use crate::text::repeat_str;

/// Whether cells are colorized: `Auto` is treated as capable here; the
/// caller decides capability and passes `Never` otherwise.
pub open spec fn use_color(c: Color) -> bool {
    c != Color::Never
}

/// `s` left-aligned in a field of `w` characters.
pub open spec fn pad_spec(s: Seq<char>, w: nat) -> Seq<char> {
    if s.len() >= w {
        s
    } else {
        s + repeat_str(" "@, (w - s.len()) as nat)
    }
}

/// The ANSI coloring of cell content by kind: null and collapsed cells
/// dim, numbers yellow, strings green, booleans plain.
pub open spec fn colorize_spec(s: Seq<char>, t: CellType) -> Seq<char> {
    match t {
        CellType::Null => "\u{1b}[2;37m"@ + s + "\u{1b}[0m"@,
        CellType::Collapsed => "\u{1b}[2;37m"@ + s + "\u{1b}[0m"@,
        CellType::Number => "\u{1b}[33m"@ + s + "\u{1b}[0m"@,
        CellType::String => "\u{1b}[32m"@ + s + "\u{1b}[0m"@,
        CellType::Bool => s,
    }
}

pub open spec fn format_cell_spec(c: CellView, w: nat, color: Color) -> Seq<char> {
    if use_color(color) {
        colorize_spec(pad_spec(c.content, w), c.cell_type)
    } else {
        pad_spec(c.content, w)
    }
}

/// Header text is set in bold blue when colorized.
pub open spec fn format_header_spec(name: Seq<char>, w: nat, color: Color) -> Seq<char> {
    if use_color(color) {
        "\u{1b}[1;34m"@ + pad_spec(name, w) + "\u{1b}[0m"@
    } else {
        pad_spec(name, w)
    }
}

/// The first `n` column dashes of a border, `mid` between columns.
pub open spec fn border_cells(widths: Seq<nat>, mid: Seq<char>, n: int) -> Seq<char>
    decreases n,
{
    if n <= 0 {
        Seq::empty()
    } else if n == 1 {
        repeat_str("─"@, widths[0])
    } else {
        border_cells(widths, mid, n - 1) + mid + repeat_str("─"@, widths[n - 1])
    }
}

pub open spec fn border_line(
    widths: Seq<nat>,
    l: Seq<char>,
    mid: Seq<char>,
    r: Seq<char>,
) -> Seq<char> {
    l + border_cells(widths, mid, widths.len() as int) + r + "\n"@
}

pub open spec fn widths_of(headers: Seq<HeaderView>) -> Seq<nat> {
    headers.map_values(|h: HeaderView| h.max_width)
}

pub open spec fn header_cells(headers: Seq<HeaderView>, color: Color, n: int) -> Seq<char>
    decreases n,
{
    if n <= 0 {
        Seq::empty()
    } else {
        header_cells(headers, color, n - 1) + format_header_spec(
            headers[n - 1].name,
            headers[n - 1].max_width,
            color,
        ) + "│"@
    }
}

pub open spec fn header_row_spec(headers: Seq<HeaderView>, color: Color) -> Seq<char> {
    "│"@ + header_cells(headers, color, headers.len() as int) + "\n"@
}

pub open spec fn content_cells(
    cells: Seq<CellView>,
    headers: Seq<HeaderView>,
    color: Color,
    n: int,
) -> Seq<char>
    decreases n,
{
    if n <= 0 {
        Seq::empty()
    } else {
        content_cells(cells, headers, color, n - 1) + format_cell_spec(
            cells[n - 1],
            headers[n - 1].max_width,
            color,
        ) + "│"@
    }
}

pub open spec fn content_row_spec(
    cells: Seq<CellView>,
    headers: Seq<HeaderView>,
    color: Color,
) -> Seq<char> {
    "│"@ + content_cells(cells, headers, color, headers.len() as int) + "\n"@
}

pub open spec fn separator_spec(headers: Seq<HeaderView>) -> Seq<char> {
    border_line(widths_of(headers), "├"@, "┼"@, "┤"@)
}

/// The separator-and-content block of the first `n` rows.
pub open spec fn rows_spec(
    rows: Seq<Seq<CellView>>,
    headers: Seq<HeaderView>,
    color: Color,
    n: int,
) -> Seq<char>
    decreases n,
{
    if n <= 0 {
        Seq::empty()
    } else {
        rows_spec(rows, headers, color, n - 1) + separator_spec(headers) + content_row_spec(
            rows[n - 1],
            headers,
            color,
        )
    }
}

/// The widest header name, over the first `n` headers.
pub open spec fn max_name_width(headers: Seq<HeaderView>, n: int) -> nat
    decreases n,
{
    if n <= 0 {
        0
    } else {
        let rest = max_name_width(headers, n - 1);
        if headers[n - 1].name.len() > rest {
            headers[n - 1].name.len()
        } else {
            rest
        }
    }
}

/// The widest cell content, over the first `n` cells.
pub open spec fn max_content_width(cells: Seq<CellView>, n: int) -> nat
    decreases n,
{
    if n <= 0 {
        0
    } else {
        let rest = max_content_width(cells, n - 1);
        if cells[n - 1].content.len() > rest {
            cells[n - 1].content.len()
        } else {
            rest
        }
    }
}

/// One flipped row: the field name, header-styled, then its value.
pub open spec fn flip_row_spec(
    headers: Seq<HeaderView>,
    cells: Seq<CellView>,
    color: Color,
    i: int,
    nw: nat,
    vw: nat,
) -> Seq<char> {
    "│"@ + format_header_spec(headers[i].name, nw, color) + "│"@ + format_cell_spec(
        cells[i],
        vw,
        color,
    ) + "│"@ + "\n"@
}

/// The first `n` flipped rows, separators between them.
pub open spec fn flip_rows_spec(
    headers: Seq<HeaderView>,
    cells: Seq<CellView>,
    color: Color,
    n: int,
    nw: nat,
    vw: nat,
) -> Seq<char>
    decreases n,
{
    if n <= 0 {
        Seq::empty()
    } else if n == 1 {
        flip_row_spec(headers, cells, color, 0, nw, vw)
    } else {
        flip_rows_spec(headers, cells, color, n - 1, nw, vw) + border_line(
            seq![nw, vw],
            "├"@,
            "┼"@,
            "┤"@,
        ) + flip_row_spec(headers, cells, color, n - 1, nw, vw)
    }
}

/// The whole table.
pub open spec fn table_spec(
    headers: Seq<HeaderView>,
    rows: Seq<Seq<CellView>>,
    color: Color,
    flip: bool,
) -> Seq<char> {
    if flip {
        let nw = max_name_width(headers, headers.len() as int);
        let vw = max_content_width(rows[0], rows[0].len() as int);
        border_line(seq![nw, vw], "┌"@, "┬"@, "┐"@) + flip_rows_spec(
            headers,
            rows[0],
            color,
            headers.len() as int,
            nw,
            vw,
        ) + border_line(seq![nw, vw], "└"@, "┴"@, "┘"@)
    } else {
        border_line(widths_of(headers), "┌"@, "┬"@, "┐"@) + header_row_spec(headers, color)
            + rows_spec(rows, headers, color, rows.len() as int) + border_line(
            widths_of(headers),
            "└"@,
            "┴"@,
            "┘"@,
        )
    }
}

/// Appends `s` padded to `width`.
#[verifier::loop_isolation(false)]
fn push_padded(out: &mut String, s: &str, width: usize)
    ensures
        final(out)@ == old(out)@ + pad_spec(s@, width as nat),
{
    let ghost start = out@;
    out.append(s);
    let l = s.unicode_len();
    if l >= width {
        return;
    }
    let mut i: usize = l;
    while i < width
        invariant
            l <= i <= width,
            out@ == start + s@ + repeat_str(" "@, (i - l) as nat),
        decreases width - i,
    {
        out.append(" ");
        i += 1;
    }
}

/// Appends `n` horizontal dashes.
#[verifier::loop_isolation(false)]
fn push_dashes(out: &mut String, n: usize)
    ensures
        final(out)@ == old(out)@ + repeat_str("─"@, n as nat),
{
    let ghost start = out@;
    let mut i: usize = 0;
    while i < n
        invariant
            i <= n,
            out@ == start + repeat_str("─"@, i as nat),
        decreases n - i,
    {
        out.append("─");
        i += 1;
    }
}

/// Appends one border line over the headers' widths.
#[verifier::loop_isolation(false)]
fn push_border(out: &mut String, headers: &Vec<Header>, l: &str, mid: &str, r: &str)
    requires
        headers.len() > 0,
    ensures
        final(out)@ == old(out)@ + (l@ + border_cells(
            widths_of(headers_view(headers@)),
            mid@,
            headers@.len() as int,
        ) + r@ + "\n"@),
{
    let ghost ws = widths_of(headers_view(headers@));
    out.append(l);
    push_dashes(out, headers[0].max_width);
    proof {
        assert(ws[0] == headers@[0]@.max_width);
    }
    let mut i: usize = 1;
    while i < headers.len()
        invariant
            1 <= i <= headers.len(),
            out@ == old(out)@ + l@ + border_cells(ws, mid@, i as int),
        decreases headers.len() - i,
    {
        out.append(mid);
        push_dashes(out, headers[i].max_width);
        proof {
            assert(ws[i as int] == headers@[i as int]@.max_width);
        }
        i += 1;
    }
    out.append(r);
    out.append("\n");
}

/// Formats one cell: padded, then colorized by its kind.
pub fn format_cell(cell: &Cell, width: usize, color: Color) -> (r: String)
    ensures
        r@ == format_cell_spec(cell@, width as nat, color),
{
    let mut out = String::new();
    let plain = match color {
        Color::Never => true,
        _ => false,
    };
    if plain {
        push_padded(&mut out, cell.content.as_str(), width);
        return out;
    }
    match cell.cell_type {
        CellType::Null => out.append("\u{1b}[2;37m"),
        CellType::Collapsed => out.append("\u{1b}[2;37m"),
        CellType::Number => out.append("\u{1b}[33m"),
        CellType::String => out.append("\u{1b}[32m"),
        CellType::Bool => {}
    }
    push_padded(&mut out, cell.content.as_str(), width);
    match cell.cell_type {
        CellType::Bool => {}
        _ => out.append("\u{1b}[0m"),
    }
    out
}

/// Formats one header name: padded, bold blue when colorized.
pub fn format_header(s: &str, width: usize, color: Color) -> (r: String)
    ensures
        r@ == format_header_spec(s@, width as nat, color),
{
    let mut out = String::new();
    match color {
        Color::Never => {
            push_padded(&mut out, s, width);
        }
        _ => {
            out.append("\u{1b}[1;34m");
            push_padded(&mut out, s, width);
            out.append("\u{1b}[0m");
        }
    }
    out
}

/// Appends one header row.
#[verifier::loop_isolation(false)]
fn push_header_row(out: &mut String, headers: &Vec<Header>, color: Color)
    ensures
        final(out)@ == old(out)@ + header_row_spec(headers_view(headers@), color),
{
    let ghost hs = headers_view(headers@);
    out.append("│");
    let mut i: usize = 0;
    while i < headers.len()
        invariant
            i <= headers.len(),
            out@ == old(out)@ + "│"@ + header_cells(hs, color, i as int),
        decreases headers.len() - i,
    {
        let h = format_header(headers[i].name.as_str(), headers[i].max_width, color);
        out.append(h.as_str());
        out.append("│");
        i += 1;
    }
    out.append("\n");
}

/// Appends one content row.
#[verifier::loop_isolation(false)]
fn push_content_row(out: &mut String, row: &Vec<Cell>, headers: &Vec<Header>, color: Color)
    requires
        row.len() == headers.len(),
    ensures
        final(out)@ == old(out)@ + content_row_spec(
            cells_view(row@),
            headers_view(headers@),
            color,
        ),
{
    let ghost hs = headers_view(headers@);
    let ghost cs = cells_view(row@);
    out.append("│");
    let mut i: usize = 0;
    while i < headers.len()
        invariant
            i <= headers.len(),
            out@ == old(out)@ + "│"@ + content_cells(cs, hs, color, i as int),
        decreases headers.len() - i,
    {
        let c = format_cell(&row[i], headers[i].max_width, color);
        out.append(c.as_str());
        out.append("│");
        i += 1;
    }
    out.append("\n");
}

/// Appends a border of the two-column flipped layout.
fn push_border2(out: &mut String, nw: usize, vw: usize, l: &str, mid: &str, r: &str)
    ensures
        final(out)@ == old(out)@ + border_line(seq![nw as nat, vw as nat], l@, mid@, r@),
{
    let ghost ws = seq![nw as nat, vw as nat];
    out.append(l);
    push_dashes(out, nw);
    out.append(mid);
    push_dashes(out, vw);
    out.append(r);
    out.append("\n");
    proof {
        reveal_with_fuel(border_cells, 3);
        assert(border_cells(ws, mid@, 2) == repeat_str("─"@, nw as nat) + mid@ + repeat_str(
            "─"@,
            vw as nat,
        ));
    }
}

/// The widest header name.
#[verifier::loop_isolation(false)]
fn flip_name_width(headers: &Vec<Header>) -> (r: usize)
    ensures
        r as nat == max_name_width(headers_view(headers@), headers@.len() as int),
{
    let ghost hs = headers_view(headers@);
    let mut nw: usize = 0;
    let mut i: usize = 0;
    while i < headers.len()
        invariant
            i <= headers.len(),
            nw as nat == max_name_width(hs, i as int),
        decreases headers.len() - i,
    {
        let l = headers[i].name.as_str().unicode_len();
        if l > nw {
            nw = l;
        }
        i += 1;
    }
    nw
}

/// The widest cell content of the single flipped row.
#[verifier::loop_isolation(false)]
fn flip_value_width(row: &Vec<Cell>) -> (r: usize)
    ensures
        r as nat == max_content_width(cells_view(row@), row@.len() as int),
{
    let ghost cs = cells_view(row@);
    let mut vw: usize = 0;
    let mut j: usize = 0;
    while j < row.len()
        invariant
            j <= row.len(),
            vw as nat == max_content_width(cs, j as int),
        decreases row.len() - j,
    {
        let l = row[j].content.as_str().unicode_len();
        if l > vw {
            vw = l;
        }
        j += 1;
    }
    vw
}

/// Appends one flipped row: the field name, then its value.
fn push_flip_row(
    out: &mut String,
    headers: &Vec<Header>,
    row: &Vec<Cell>,
    k: usize,
    nw: usize,
    vw: usize,
    color: Color,
)
    requires
        k < headers.len(),
        k < row.len(),
    ensures
        final(out)@ == old(out)@ + flip_row_spec(
            headers_view(headers@),
            cells_view(row@),
            color,
            k as int,
            nw as nat,
            vw as nat,
        ),
{
    out.append("│");
    let h = format_header(headers[k].name.as_str(), nw, color);
    out.append(h.as_str());
    out.append("│");
    let c = format_cell(&row[k], vw, color);
    out.append(c.as_str());
    out.append("│");
    out.append("\n");
    proof {
        assert(headers_view(headers@)[k as int].name == headers@[k as int].name@);
        assert(cells_view(row@)[k as int] == row@[k as int]@);
    }
}

/// The flipped layout: one field/value pair per row.
#[verifier::loop_isolation(false)]
#[verifier::rlimit(60)]
fn draw_flip(headers: &Vec<Header>, row: &Vec<Cell>, color: Color) -> (r: String)
    requires
        headers.len() > 0,
        row.len() == headers.len(),
    ensures
        r@ == border_line(
            seq![
                max_name_width(headers_view(headers@), headers@.len() as int),
                max_content_width(cells_view(row@), row@.len() as int),
            ],
            "┌"@,
            "┬"@,
            "┐"@,
        ) + flip_rows_spec(
            headers_view(headers@),
            cells_view(row@),
            color,
            headers@.len() as int,
            max_name_width(headers_view(headers@), headers@.len() as int),
            max_content_width(cells_view(row@), row@.len() as int),
        ) + border_line(
            seq![
                max_name_width(headers_view(headers@), headers@.len() as int),
                max_content_width(cells_view(row@), row@.len() as int),
            ],
            "└"@,
            "┴"@,
            "┘"@,
        ),
{
    let ghost hs = headers_view(headers@);
    let ghost cs = cells_view(row@);
    let nw = flip_name_width(headers);
    let vw = flip_value_width(row);
    let mut out = String::new();
    push_border2(&mut out, nw, vw, "┌", "┬", "┐");
    let ghost top = border_line(seq![nw as nat, vw as nat], "┌"@, "┬"@, "┐"@);
    let mut k: usize = 0;
    while k < headers.len()
        invariant
            k <= headers.len(),
            out@ == top + flip_rows_spec(hs, cs, color, k as int, nw as nat, vw as nat),
        decreases headers.len() - k,
    {
        if k > 0 {
            push_border2(&mut out, nw, vw, "├", "┼", "┤");
        }
        push_flip_row(&mut out, headers, row, k, nw, vw, color);
        k += 1;
    }
    push_border2(&mut out, nw, vw, "└", "┴", "┘");
    out
}

/// Draws the full table. Flipped rendering is defined for exactly one
/// row of cells.
#[verifier::loop_isolation(false)]
pub fn draw_table(headers: &Vec<Header>, rows: &Vec<Vec<Cell>>, options: DrawOptions) -> (r:
    String)
    requires
        headers.len() > 0,
        forall|i: int| 0 <= i < rows@.len() ==> #[trigger] rows@[i]@.len() == headers@.len(),
        options.flip ==> rows.len() == 1,
    ensures
        r@ == table_spec(
            headers_view(headers@),
            rows_view(rows@),
            options.color,
            options.flip,
        ),
{
    let ghost hs = headers_view(headers@);
    let ghost rws = rows_view(rows@);
    let color = options.color;
    if options.flip {
        let r = draw_flip(headers, &rows[0], color);
        proof {
            assert(cells_view(rows@[0]@) == rws[0]);
            assert(r@ == table_spec(hs, rws, color, options.flip));
        }
        r
    } else {
        let mut out = String::new();
        push_border(&mut out, headers, "┌", "┬", "┐");
        push_header_row(&mut out, headers, color);
        let ghost lead = border_line(widths_of(hs), "┌"@, "┬"@, "┐"@) + header_row_spec(
            hs,
            color,
        );
        let mut t: usize = 0;
        while t < rows.len()
            invariant
                t <= rows.len(),
                out@ == lead + rows_spec(rws, hs, color, t as int),
            decreases rows.len() - t,
        {
            push_border(&mut out, headers, "├", "┼", "┤");
            push_content_row(&mut out, &rows[t], headers, color);
            proof {
                assert(cells_view(rows@[t as int]@) == rws[t as int]);
            }
            t += 1;
        }
        push_border(&mut out, headers, "└", "┴", "┘");
        proof {
            assert(out@ == table_spec(hs, rws, color, options.flip));
        }
        out
    }
}

} // verus!
