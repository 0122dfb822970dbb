//! A sheet's used range as the library sees it: the non-empty cells, row-major.
use vstd::prelude::*;

verus! {

/// The content of one cell. Numbers and dates are carried as the IEEE-754 bit
/// pattern of their `f64` value: the library only tells them apart and passes them on.
#[derive(Debug, PartialEq, Eq)]
pub enum CellValue {
    Empty,
    Text(String),
    Number(u64),
    DateTime(u64),
    Other,
}

/// One used cell, with its position from the range's top-left cell.
#[derive(Debug)]
pub struct UsedCell {
    pub row: usize,
    pub col: usize,
    pub value: CellValue,
}

/// The used range of a sheet: its size and its used cells, read left to right and
/// top to bottom.
#[derive(Debug)]
pub struct Grid {
    pub height: usize,
    pub width: usize,
    pub cells: Vec<UsedCell>,
}

/// Every cell lies inside the `height` by `width` range.
pub open spec fn cells_inside(cells: Seq<UsedCell>, height: usize, width: usize) -> bool {
    forall|i: int| 0 <= i < cells.len() ==> #[trigger] cells[i].row < height && cells[i].col < width
}

/// The first cell at or after `k` that stands at (`row`, `col`).
pub open spec fn first_cell_from(cells: Seq<UsedCell>, k: int, row: usize, col: usize) -> Option<int>
    decreases cells.len() - k,
{
    if k < 0 || k >= cells.len() {
        None
    } else if cells[k].row == row && cells[k].col == col {
        Some(k)
    } else {
        first_cell_from(cells, k + 1, row, col)
    }
}

/// The value at (`row`, `col`): empty where no used cell stands.
pub open spec fn value_at(cells: Seq<UsedCell>, row: usize, col: usize) -> CellValue {
    match first_cell_from(cells, 0, row, col) {
        Some(i) => cells[i].value,
        None => CellValue::Empty,
    }
}

impl Grid {
    /// Every used cell lies inside the range.
    pub open spec fn wf(&self) -> bool {
        cells_inside(self.cells@, self.height, self.width)
    }

    /// A grid of the given size, or `None` where a cell lies outside it.
    pub fn new(height: usize, width: usize, cells: Vec<UsedCell>) -> (r: Option<Grid>)
        ensures
            r is Some <==> cells_inside(cells@, height, width),
            r is Some ==> r->0.height == height && r->0.width == width && r->0.cells@ == cells@,
    {
        let mut i: usize = 0;
        while i < cells.len()
            invariant
                i <= cells@.len(),
                forall|j: int| 0 <= j < i ==> #[trigger] cells@[j].row < height && cells@[j].col < width,
            decreases cells@.len() - i,
        {
            if cells[i].row >= height || cells[i].col >= width {
                return None;
            }
            i += 1;
        }
        Some(Grid { height, width, cells })
    }

    /// The index of the first used cell at (`row`, `col`).
    pub fn find(&self, row: usize, col: usize) -> (r: Option<usize>)
        ensures
            r matches Some(i) ==> i < self.cells@.len() && first_cell_from(self.cells@, 0, row, col) == Some(i as int),
            r is None ==> first_cell_from(self.cells@, 0, row, col) is None,
    {
        let mut i: usize = 0;
        while i < self.cells.len()
            invariant
                i <= self.cells@.len(),
                first_cell_from(self.cells@, 0, row, col) == first_cell_from(self.cells@, i as int, row, col),
            decreases self.cells@.len() - i,
        {
            if self.cells[i].row == row && self.cells[i].col == col {
                return Some(i);
            }
            i += 1;
        }
        None
    }

    /// Whether the cell at (`row`, `col`) holds text.
    pub fn is_text_at(&self, row: usize, col: usize) -> (r: bool)
        ensures
            r == (value_at(self.cells@, row, col) is Text),
    {
        match self.find(row, col) {
            Some(i) => match &self.cells[i].value {
                CellValue::Text(_) => true,
                _ => false,
            },
            None => false,
        }
    }

    /// The number at (`row`, `col`), if the cell holds a number (not a date).
    pub fn number_at(&self, row: usize, col: usize) -> (r: Option<u64>)
        ensures
            r == (match value_at(self.cells@, row, col) {
                CellValue::Number(x) => Some(x),
                _ => None::<u64>,
            }),
    {
        match self.find(row, col) {
            Some(i) => match &self.cells[i].value {
                CellValue::Number(x) => Some(*x),
                _ => None,
            },
            None => None,
        }
    }
}

} // verus!
