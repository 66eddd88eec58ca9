use vstd::prelude::*;

use crate::dataset::{copy_strings, names_view};

verus! {

/// The H3 cell index that a string names, if it names a valid cell.
pub uninterp spec fn h3_cell_of(s: Seq<char>) -> Option<u64>;

/// Relies on h3o's `CellIndex::from_str`: it reads a hexadecimal H3 index and
/// accepts it only when it names a valid cell; the outcome depends on the
/// characters alone.
#[verifier::external_body]
fn parse_cell(s: &str) -> (r: Option<u64>)
    ensures
        r == h3_cell_of(s@),
{
    s.parse::<h3o::CellIndex>().ok().map(u64::from)
}

/// One H3 cell to draw on the map.
pub struct Hexagon {
    h3cell: String,
}

impl Hexagon {
    pub closed spec fn cell(&self) -> Seq<char> {
        self.h3cell@
    }

    pub fn new(h3cell: String) -> (r: Hexagon)
        ensures
            r.cell() == h3cell@,
    {
        Hexagon { h3cell }
    }

    /// The cell's identifier as given.
    pub fn h3cell(&self) -> (r: &String)
        ensures
            r@ == self.cell(),
    {
        &self.h3cell
    }

    /// The H3 index of the cell, when the identifier names a valid cell.
    pub fn cell_index(&self) -> (r: Option<u64>)
        ensures
            r == h3_cell_of(self.cell()),
    {
        parse_cell(self.h3cell.as_str())
    }
}

/// The H3 cells of the current view, drawn as one layer.
pub struct HexagonPlot {
    h3cells: Vec<String>,
}

impl HexagonPlot {
    pub closed spec fn cells(&self) -> Seq<Seq<char>> {
        names_view(self.h3cells@)
    }

    pub fn new(h3cells: Vec<String>) -> (r: HexagonPlot)
        ensures
            r.cells() == names_view(h3cells@),
    {
        HexagonPlot { h3cells }
    }

    /// One hexagon per cell, in order.
    pub fn hexagons(&self) -> (r: Vec<Hexagon>)
        ensures
            r@.len() == self.cells().len(),
            forall|i: int| 0 <= i < r@.len() ==> #[trigger] r@[i].cell() == self.cells()[i],
    {
        let cells = copy_strings(&self.h3cells);
        let mut out: Vec<Hexagon> = Vec::new();
        let mut i: usize = 0;
        while i < cells.len()
            invariant
                cells@ == self.h3cells@,
                i <= cells@.len(),
                out@.len() == i,
                forall|j: int| 0 <= j < i ==> #[trigger] out@[j].cell() == cells@[j]@,
            decreases cells@.len() - i,
        {
            out.push(Hexagon::new(cells[i].clone()));
            i = i + 1;
        }
        out
    }
}

} // verus!
