//! The tabular layout: headers with their column widths, and per-cell
//! typed content, ready for the box-drawing renderer.

use vstd::prelude::*;

pub mod draw;

pub use draw::draw_table;

verus! {

use crate::args::Color;

#[derive(Debug)]
pub struct DrawOptions {
    pub color: Color,
    /// Render a single record as a two-column field/value table.
    pub flip: bool,
}

/// One column: a field name and the width its cells need.
#[derive(Debug)]
pub struct Header {
    pub name: String,
    pub max_width: usize,
}

#[verifier::ext_equal]
pub struct HeaderView {
    pub name: Seq<char>,
    pub max_width: nat,
}

impl View for Header {
    type V = HeaderView;

    open spec fn view(&self) -> HeaderView {
        HeaderView { name: self.name@, max_width: self.max_width as nat }
    }
}

pub open spec fn headers_view(v: Seq<Header>) -> Seq<HeaderView> {
    v.map_values(|h: Header| h@)
}

/// What kind of value a cell shows, which decides its color.
#[derive(Debug, Copy, Clone, PartialEq, Eq, Structural)]
pub enum CellType {
    Null,
    Bool,
    Number,
    String,
    /// An array or object, abbreviated to a placeholder.
    Collapsed,
}

/// One cell: its formatted content and its kind.
#[derive(Debug)]
pub struct Cell {
    pub content: String,
    pub cell_type: CellType,
}

#[verifier::ext_equal]
pub struct CellView {
    pub content: Seq<char>,
    pub cell_type: CellType,
}

impl View for Cell {
    type V = CellView;

    open spec fn view(&self) -> CellView {
        CellView { content: self.content@, cell_type: self.cell_type }
    }
}

pub open spec fn cells_view(v: Seq<Cell>) -> Seq<CellView> {
    v.map_values(|c: Cell| c@)
}

pub open spec fn rows_view(v: Seq<Vec<Cell>>) -> Seq<Seq<CellView>> {
    v.map_values(|r: Vec<Cell>| cells_view(r@))
}

impl Cell {
    pub fn null(content: String) -> (r: Self)
        ensures
            r@ == (CellView { content: content@, cell_type: CellType::Null }),
    {
        Self { content, cell_type: CellType::Null }
    }

    pub fn bool(content: String) -> (r: Self)
        ensures
            r@ == (CellView { content: content@, cell_type: CellType::Bool }),
    {
        Self { content, cell_type: CellType::Bool }
    }

    pub fn number(content: String) -> (r: Self)
        ensures
            r@ == (CellView { content: content@, cell_type: CellType::Number }),
    {
        Self { content, cell_type: CellType::Number }
    }

    pub fn string(content: String) -> (r: Self)
        ensures
            r@ == (CellView { content: content@, cell_type: CellType::String }),
    {
        Self { content, cell_type: CellType::String }
    }

    pub fn collapsed(content: String) -> (r: Self)
        ensures
            r@ == (CellView { content: content@, cell_type: CellType::Collapsed }),
    {
        Self { content, cell_type: CellType::Collapsed }
    }
}

} // verus!
