//! A table of text cells, as the commands print it: a header and rows.
use vstd::prelude::*;
use crate::text::views;

verus! {

/// A table to print: the header cells and the cells of each row.
#[derive(Debug)]
pub struct Table {
    pub header: Vec<String>,
    pub rows: Vec<Vec<String>>,
}

/// The cells of some rows, as text.
pub open spec fn cells_view(rows: Seq<Vec<String>>) -> Seq<Seq<Seq<char>>> {
    rows.map_values(|r: Vec<String>| views(r@))
}

impl Table {
    /// The header and rows as text.
    pub open spec fn view_cells(self) -> (Seq<Seq<char>>, Seq<Seq<Seq<char>>>) {
        (views(self.header@), cells_view(self.rows@))
    }
}

} // verus!
