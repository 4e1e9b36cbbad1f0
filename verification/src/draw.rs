//! An earlier, plain box renderer kept alongside the colorized one: it
//! draws fixed boxes and tables of already-formatted strings, without
//! cell typing or color.

use vstd::prelude::*;

verus! {

use vstd::string::StrSliceExecFns;
use vstd::string::StringExecFns;
use crate::table::draw::border_cells;
use crate::table::draw::pad_spec;
use crate::text::chars_to_string;
use crate::text::repeat_str;
use crate::text::strs_view;

/// One column: a field name and the width its cells need.
#[derive(Debug)]
pub struct Header {
    pub name: String,
    pub max_width: usize,
}

/// The name and width of each column.
pub open spec fn columns_view(v: Seq<Header>) -> Seq<(Seq<char>, nat)> {
    v.map_values(|h: Header| (h.name@, h.max_width as nat))
}

pub open spec fn column_widths(v: Seq<(Seq<char>, nat)>) -> Seq<nat> {
    v.map_values(|c: (Seq<char>, nat)| c.1)
}

/// One fixed-width line: `start`, then `mid` repeated, then `end`.
pub open spec fn line_spec(width: nat, start: char, mid: char, end: char) -> Seq<char> {
    seq![start] + repeat_str(seq![mid], (width - 2) as nat) + seq![end]
}

/// A line of a box: its border or an empty interior row.
pub fn row(width: usize, start: char, mid: char, end: char) -> (r: Vec<char>)
    requires
        width >= 2,
    ensures
        r@ == line_spec(width as nat, start, mid, end),
{
    let mut out: Vec<char> = Vec::new();
    out.push(start);
    let mut i: usize = 0;
    while i < width - 2
        invariant
            i <= width - 2,
            out@ == seq![start] + repeat_str(seq![mid], i as nat),
        decreases width - 2 - i,
    {
        out.push(mid);
        proof {
            assert(out@ =~= seq![start] + repeat_str(seq![mid], i as nat + 1));
        }
        i += 1;
    }
    out.push(end);
    proof {
        assert(out@ =~= line_spec(width as nat, start, mid, end));
    }
    out
}

/// The interior of a box: `n` empty rows.
pub open spec fn box_middle(n: int, width: nat) -> Seq<char>
    decreases n,
{
    if n <= 0 {
        Seq::empty()
    } else {
        box_middle(n - 1, width) + line_spec(width, '│', ' ', '│') + seq!['\n']
    }
}

/// The whole box: top border, empty interior, bottom border.
pub open spec fn box_spec(height: nat, width: nat) -> Seq<char> {
    line_spec(width, '┌', '─', '┐') + seq!['\n'] + box_middle(
        if height >= 3 {
            height - 3
        } else {
            0
        },
        width,
    ) + line_spec(width, '└', '─', '┘')
}

/// Draws an empty box of the given outer size.
#[verifier::loop_isolation(false)]
pub fn draw_box(height: usize, width: usize) -> (r: String)
    requires
        height >= 2,
        width >= 2,
    ensures
        r@ == box_spec(height as nat, width as nat),
{
    let mut chars = row(width, '┌', '─', '┐');
    chars.push('\n');
    let ghost top = chars@;
    let n = if height >= 3 {
        height - 3
    } else {
        0
    };
    let mut i: usize = 0;
    while i < n
        invariant
            i <= n,
            chars@ == top + box_middle(i as int, width as nat),
        decreases n - i,
    {
        let mut mid = row(width, '│', ' ', '│');
        chars.append(&mut mid);
        chars.push('\n');
        proof {
            assert(chars@ =~= top + box_middle(i as int + 1, width as nat));
        }
        i += 1;
    }
    let mut bottom = row(width, '└', '─', '┘');
    chars.append(&mut bottom);
    proof {
        assert(chars@ =~= box_spec(height as nat, width as nat));
    }
    chars_to_string(&chars)
}

/// Left-aligns `s` in a field of `width` characters.
#[verifier::loop_isolation(false)]
pub fn pad_left(s: &str, width: usize) -> (r: String)
    ensures
        r@ == pad_spec(s@, width as nat),
{
    let mut out = String::from_str(s);
    let l = s.unicode_len();
    if l >= width {
        return out;
    }
    let mut i: usize = l;
    while i < width
        invariant
            l <= i <= width,
            out@ == s@ + repeat_str(" "@, (i - l) as nat),
        decreases width - i,
    {
        out.append(" ");
        i += 1;
    }
    out
}

/// One border line over the columns' widths.
pub open spec fn plain_border(
    cols: Seq<(Seq<char>, nat)>,
    l: char,
    mid: char,
    r: char,
) -> Seq<char> {
    seq![l] + border_cells(column_widths(cols), seq![mid], cols.len() as int) + seq![r]
        + seq!['\n']
}

/// The first `n` header names, each padded and closed by a vertical.
pub open spec fn plain_header_cells(cols: Seq<(Seq<char>, nat)>, n: int) -> Seq<char>
    decreases n,
{
    if n <= 0 {
        Seq::empty()
    } else {
        plain_header_cells(cols, n - 1) + pad_spec(cols[n - 1].0, cols[n - 1].1) + seq!['│']
    }
}

/// The first `n` cells of one row, each padded and closed.
pub open spec fn plain_row_cells(
    cells: Seq<Seq<char>>,
    cols: Seq<(Seq<char>, nat)>,
    n: int,
) -> Seq<char>
    decreases n,
{
    if n <= 0 {
        Seq::empty()
    } else {
        plain_row_cells(cells, cols, n - 1) + pad_spec(cells[n - 1], cols[n - 1].1)
            + seq!['│']
    }
}

/// The separator-and-content block of the first `n` rows.
pub open spec fn plain_rows(
    rows: Seq<Seq<Seq<char>>>,
    cols: Seq<(Seq<char>, nat)>,
    n: int,
) -> Seq<char>
    decreases n,
{
    if n <= 0 {
        Seq::empty()
    } else {
        plain_rows(rows, cols, n - 1) + plain_border(cols, '├', '┼', '┤') + seq!['│']
            + plain_row_cells(rows[n - 1], cols, cols.len() as int) + seq!['\n']
    }
}

/// The whole plain table, with a blank line after the bottom border.
pub open spec fn plain_table_spec(
    cols: Seq<(Seq<char>, nat)>,
    rows: Seq<Seq<Seq<char>>>,
) -> Seq<char> {
    plain_border(cols, '┌', '┬', '┐') + seq!['│'] + plain_header_cells(
        cols,
        cols.len() as int,
    ) + seq!['\n'] + plain_rows(rows, cols, rows.len() as int) + plain_border(
        cols,
        '└',
        '┴',
        '┘',
    )
}

/// Appends one border line.
#[verifier::loop_isolation(false)]
fn append_border(out: &mut String, headers: &Vec<Header>, l: char, mid: char, r: char)
    requires
        headers.len() > 0,
    ensures
        final(out)@ == old(out)@ + plain_border(columns_view(headers@), l, mid, r),
{
    let ghost cols = columns_view(headers@);
    proof {
        reveal_strlit("─");
        assert("─"@ =~= seq!['─']);
    }
    let mut chars: Vec<char> = Vec::new();
    chars.push(l);
    let mut d: usize = 0;
    while d < headers[0].max_width
        invariant
            d <= headers@[0].max_width,
            chars@ == seq![l] + repeat_str(seq!['─'], d as nat),
        decreases headers@[0].max_width - d,
    {
        chars.push('─');
        proof {
            assert(chars@ =~= seq![l] + repeat_str(seq!['─'], d as nat + 1));
        }
        d += 1;
    }
    proof {
        assert(column_widths(cols)[0] == headers@[0].max_width as nat);
    }
    let mut i: usize = 1;
    while i < headers.len()
        invariant
            1 <= i <= headers.len(),
            chars@ == seq![l] + border_cells(column_widths(cols), seq![mid], i as int),
        decreases headers.len() - i,
    {
        chars.push(mid);
        let ghost base = chars@;
        let mut d2: usize = 0;
        while d2 < headers[i].max_width
            invariant
                d2 <= headers@[i as int].max_width,
                chars@ == base + repeat_str(seq!['─'], d2 as nat),
            decreases headers@[i as int].max_width - d2,
        {
            chars.push('─');
            proof {
                assert(chars@ =~= base + repeat_str(seq!['─'], d2 as nat + 1));
            }
            d2 += 1;
        }
        proof {
            assert(column_widths(cols)[i as int] == headers@[i as int].max_width as nat);
        }
        i += 1;
    }
    chars.push(r);
    chars.push('\n');
    let line = chars_to_string(&chars);
    out.append(line.as_str());
    proof {
        assert(final(out)@ =~= old(out)@ + plain_border(cols, l, mid, r));
    }
}

/// Draws a table of already-formatted strings: borders, one header
/// row, and one content row per record, with a separator before each.
#[verifier::loop_isolation(false)]
pub fn draw_table(headers: &Vec<Header>, rows: &Vec<Vec<String>>) -> (r: String)
    requires
        headers.len() > 0,
        forall|i: int| 0 <= i < rows@.len() ==> #[trigger] rows@[i]@.len() == headers@.len(),
    ensures
        r@ == plain_table_spec(
            columns_view(headers@),
            rows@.map_values(|row: Vec<String>| strs_view(row@)),
        ),
{
    let ghost cols = columns_view(headers@);
    let ghost rws = rows@.map_values(|row: Vec<String>| strs_view(row@));
    let mut out = String::new();
    append_border(&mut out, headers, '┌', '┬', '┐');
    out.append("│");
    let mut i: usize = 0;
    proof {
        reveal_strlit("│");
        reveal_strlit("\n");
        assert("│"@ =~= seq!['│']);
        assert("\n"@ =~= seq!['\n']);
    }
    while i < headers.len()
        invariant
            i <= headers.len(),
            out@ == plain_border(cols, '┌', '┬', '┐') + seq!['│'] + plain_header_cells(
                cols,
                i as int,
            ),
        decreases headers.len() - i,
    {
        let p = pad_left(headers[i].name.as_str(), headers[i].max_width);
        out.append(p.as_str());
        out.append("│");
        i += 1;
    }
    out.append("\n");
    let ghost lead = plain_border(cols, '┌', '┬', '┐') + seq!['│'] + plain_header_cells(
        cols,
        cols.len() as int,
    ) + seq!['\n'];
    proof {
        assert(out@ == lead);
    }
    let mut t: usize = 0;
    while t < rows.len()
        invariant
            t <= rows.len(),
            out@ == lead + plain_rows(rws, cols, t as int),
        decreases rows.len() - t,
    {
        append_border(&mut out, headers, '├', '┼', '┤');
        out.append("│");
        let row = &rows[t];
        let ghost cs = strs_view(row@);
        let ghost mid = lead + plain_rows(rws, cols, t as int) + plain_border(
            cols,
            '├',
            '┼',
            '┤',
        ) + seq!['│'];
        let mut i2: usize = 0;
        while i2 < headers.len()
            invariant
                i2 <= headers.len(),
                cs.len() == cols.len(),
                cs == rws[t as int],
                out@ == mid + plain_row_cells(cs, cols, i2 as int),
            decreases headers.len() - i2,
        {
            let p = pad_left(row[i2].as_str(), headers[i2].max_width);
            out.append(p.as_str());
            out.append("│");
            i2 += 1;
        }
        out.append("\n");
        t += 1;
    }
    append_border(&mut out, headers, '└', '┴', '┘');
    proof {
        assert(out@ == plain_table_spec(cols, rws));
    }
    out
}

} // verus!
