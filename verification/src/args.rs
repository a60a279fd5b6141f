//! The grid: ordered row and column labels with a sparse mapping from
//! (row, column) positions to typed values.

use vstd::prelude::*;

use crate::branch::clone_strings;
use crate::labels::{find_idx, find_string, str_views};
use crate::value::{value_equiv, value_wf, Value};

verus! {

/// One populated grid cell, addressed by row and column position.
pub struct Cell {
    pub row: usize,
    pub col: usize,
    pub value: Value,
}

/// A labeled row-by-column table of editable values; not every cell need
/// be populated.
pub struct Args {
    pub names: Vec<String>,
    pub columns: Vec<String>,
    pub cells: Vec<Cell>,
}

/// The first index of a cell at (r, c), or `-1`.
pub open spec fn cell_idx(cells: Seq<Cell>, r: int, c: int) -> int
    decreases cells.len(),
{
    if cells.len() == 0 {
        -1
    } else if cells[0].row == r && cells[0].col == c {
        0
    } else {
        let rest = cell_idx(cells.skip(1), r, c);
        if rest < 0 {
            -1
        } else {
            rest + 1
        }
    }
}

pub proof fn lemma_cell_idx(cells: Seq<Cell>, r: int, c: int)
    ensures
        cell_idx(cells, r, c) == -1 ==> forall|i: int|
            0 <= i < cells.len() ==> !(cells[i].row == r && cells[i].col == c),
        cell_idx(cells, r, c) >= 0 ==> 0 <= cell_idx(cells, r, c) < cells.len() && cells[cell_idx(
            cells,
            r,
            c,
        )].row == r && cells[cell_idx(cells, r, c)].col == c && forall|i: int|
            0 <= i < cell_idx(cells, r, c) ==> !(cells[i].row == r && cells[i].col == c),
    decreases cells.len(),
{
    if cells.len() > 0 && !(cells[0].row == r && cells[0].col == c) {
        let rest = cells.skip(1);
        lemma_cell_idx(rest, r, c);
        assert(forall|i: int| 0 <= i < rest.len() ==> rest[i] == cells[i + 1]);
        assert(forall|j: int| 1 <= j < cells.len() ==> cells[j] == rest[j - 1]);
    }
}

pub proof fn lemma_cell_idx_of(cells: Seq<Cell>, r: int, c: int, k: int)
    requires
        0 <= k <= cells.len(),
        forall|i: int| 0 <= i < k ==> !(cells[i].row == r && cells[i].col == c),
        k == cells.len() || (cells[k].row == r && cells[k].col == c),
    ensures
        k < cells.len() ==> cell_idx(cells, r, c) == k,
        k == cells.len() ==> cell_idx(cells, r, c) == -1,
    decreases k,
{
    if cells.len() == 0 {
    } else if cells[0].row == r && cells[0].col == c {
    } else {
        lemma_cell_idx_of(cells.skip(1), r, c, k - 1);
    }
}

/// The value at positions (r, c), if that cell is populated.
pub open spec fn cell_at(a: Args, r: int, c: int) -> Option<Value> {
    let i = cell_idx(a.cells@, r, c);
    if i < 0 {
        None
    } else {
        Some(a.cells@[i].value)
    }
}

/// The position of a row label.
pub open spec fn row_find(a: Args, name: Seq<char>) -> int {
    find_idx(str_views(a.names@), name)
}

/// The position of a column label.
pub open spec fn col_find(a: Args, name: Seq<char>) -> int {
    find_idx(str_views(a.columns@), name)
}

/// The value at a (row label, column label) pair, if both labels exist
/// and the cell is populated.
pub open spec fn cell_by_labels(a: Args, name: Seq<char>, column: Seq<char>) -> Option<Value> {
    let r = row_find(a, name);
    let c = col_find(a, column);
    if r < 0 || c < 0 {
        None
    } else {
        cell_at(a, r, c)
    }
}

/// The value at a (row label, column position) pair.
pub open spec fn cell_by_cindex(a: Args, name: Seq<char>, c: int) -> Option<Value> {
    let r = row_find(a, name);
    if r < 0 {
        None
    } else {
        cell_at(a, r, c)
    }
}

/// No two populated cells share a position.
pub open spec fn cells_unique(cells: Seq<Cell>) -> bool {
    forall|i: int, j: int|
        0 <= i < j < cells.len() ==> !(cells[i].row == cells[j].row && cells[i].col
            == cells[j].col)
}

/// Well-formedness: positions are unique and every value is well formed.
pub open spec fn args_wf(a: Args) -> bool
    decreases a,
{
    cells_unique(a.cells@) && forall|i: int|
        0 <= i < a.cells@.len() ==> value_wf(#[trigger] a.cells@[i].value)
}

/// Deep structural equality of two grids.
pub open spec fn args_equiv(a: Args, b: Args) -> bool
    decreases a,
{
    &&& str_views(a.names@) == str_views(b.names@)
    &&& str_views(a.columns@) == str_views(b.columns@)
    &&& a.cells@.len() == b.cells@.len()
    &&& forall|i: int|
        0 <= i < a.cells@.len() ==> (#[trigger] a.cells@[i]).row == b.cells@[i].row
            && a.cells@[i].col == b.cells@[i].col && value_equiv(
            a.cells@[i].value,
            b.cells@[i].value,
        )
}

impl Default for Args {
    /// An empty grid: no rows, no columns, no cells.
    fn default() -> (r: Args)
        ensures
            r.names@.len() == 0,
            r.columns@.len() == 0,
            r.cells@.len() == 0,
            args_wf(r),
    {
        Args::new()
    }
}

impl Args {
    pub fn new() -> (r: Args)
        ensures
            r.names@.len() == 0,
            r.columns@.len() == 0,
            r.cells@.len() == 0,
            args_wf(r),
    {
        Args { names: Vec::new(), columns: Vec::new(), cells: Vec::new() }
    }

    /// Builder: set the row labels.
    pub fn names(self, names: Vec<String>) -> (r: Args)
        ensures
            r.names == names,
            r.columns == self.columns,
            r.cells == self.cells,
    {
        Args { names, columns: self.columns, cells: self.cells }
    }

    /// Builder: set the column labels.
    pub fn columns(self, columns: Vec<String>) -> (r: Args)
        ensures
            r.names == self.names,
            r.columns == columns,
            r.cells == self.cells,
    {
        Args { names: self.names, columns, cells: self.cells }
    }

    /// The first populated cell at (row, col), if any.
    pub(crate) fn find_cell(&self, row: usize, col: usize) -> (r: Option<usize>)
        ensures
            match r {
                Some(i) => i == cell_idx(self.cells@, row as int, col as int),
                None => cell_idx(self.cells@, row as int, col as int) == -1,
            },
    {
        let n = self.cells.len();
        let mut i: usize = 0;
        while i < n
            invariant
                i <= n,
                n == self.cells@.len(),
                forall|j: int|
                    0 <= j < i ==> !((#[trigger] self.cells@[j]).row == row && self.cells@[j].col
                        == col),
            decreases n - i,
        {
            if self.cells[i].row == row && self.cells[i].col == col {
                proof {
                    lemma_cell_idx_of(self.cells@, row as int, col as int, i as int);
                }
                return Some(i);
            }
            i = i + 1;
        }
        proof {
            lemma_cell_idx_of(self.cells@, row as int, col as int, n as int);
        }
        None
    }

    /// Builder: place a value at a (row label, column label) pair. When
    /// either label is absent the grid is unchanged; an already populated
    /// cell is overwritten in place.
    pub fn value(self, name: &str, column: &str, value: Value) -> (r: Args)
        ensures
            r.names == self.names,
            r.columns == self.columns,
            ({
                let ri = row_find(self, name@);
                let ci = col_find(self, column@);
                if ri < 0 || ci < 0 {
                    r.cells == self.cells
                } else {
                    let k = cell_idx(self.cells@, ri, ci);
                    if k >= 0 {
                        r.cells@ == self.cells@.update(
                            k,
                            Cell { row: ri as usize, col: ci as usize, value },
                        )
                    } else {
                        r.cells@ == self.cells@.push(
                            Cell { row: ri as usize, col: ci as usize, value },
                        )
                    }
                }
            }),
            args_wf(self) && value_wf(value) ==> args_wf(r),
    {
        let ri = match find_string(&self.names, name) {
            Some(i) => i,
            None => {
                return self;
            },
        };
        let ci = match find_string(&self.columns, column) {
            Some(i) => i,
            None => {
                return self;
            },
        };
        let mut s = self;
        proof {
            lemma_cell_idx(s.cells@, ri as int, ci as int);
        }
        match s.find_cell(ri, ci) {
            Some(k) => {
                s.cells.remove(k);
                s.cells.insert(k, Cell { row: ri, col: ci, value });
                proof {
                    assert(s.cells@ =~= self.cells@.update(
                        cell_idx(self.cells@, ri as int, ci as int),
                        Cell { row: ri, col: ci, value },
                    ));
                }
            },
            None => {
                s.cells.push(Cell { row: ri, col: ci, value });
            },
        }
        s
    }

    pub fn get_names_raw(&self) -> (r: &Vec<String>)
        ensures
            *r == self.names,
    {
        &self.names
    }

    /// The row labels, as owned strings.
    pub fn get_names(&self) -> (r: Vec<String>)
        ensures
            str_views(r@) == str_views(self.names@),
    {
        clone_strings(&self.names)
    }

    pub fn get_columns_raw(&self) -> (r: &Vec<String>)
        ensures
            *r == self.columns,
    {
        &self.columns
    }

    /// The column labels, as owned strings.
    pub fn get_columns(&self) -> (r: Vec<String>)
        ensures
            str_views(r@) == str_views(self.columns@),
    {
        clone_strings(&self.columns)
    }

    /// The value at a (row label, column label) pair.
    pub fn get_value(&self, name: &str, column: &str) -> (r: Option<&Value>)
        ensures
            match r {
                Some(v) => cell_by_labels(*self, name@, column@) == Some(*v),
                None => cell_by_labels(*self, name@, column@) is None,
            },
    {
        let ri = match find_string(&self.names, name) {
            Some(i) => i,
            None => {
                return None;
            },
        };
        let ci = match find_string(&self.columns, column) {
            Some(i) => i,
            None => {
                return None;
            },
        };
        self.get_value_by_indexes(ri, ci)
    }

    /// The value at a (row position, column position) pair.
    pub fn get_value_by_indexes(&self, name: usize, column: usize) -> (r: Option<&Value>)
        ensures
            match r {
                Some(v) => cell_at(*self, name as int, column as int) == Some(*v),
                None => cell_at(*self, name as int, column as int) is None,
            },
    {
        match self.find_cell(name, column) {
            Some(i) => {
                proof {
                    lemma_cell_idx(self.cells@, name as int, column as int);
                }
                Some(&self.cells[i].value)
            },
            None => None,
        }
    }

    /// The value at a (row label, column position) pair.
    pub fn get_value_by_cindex(&self, name: &str, column: usize) -> (r: Option<&Value>)
        ensures
            match r {
                Some(v) => cell_by_cindex(*self, name@, column as int) == Some(*v),
                None => cell_by_cindex(*self, name@, column as int) is None,
            },
    {
        match find_string(&self.names, name) {
            Some(ri) => self.get_value_by_indexes(ri, column),
            None => None,
        }
    }

    /// A deep copy, equal up to string identity.
    pub fn duplicate(&self) -> (r: Args)
        ensures
            args_equiv(r, *self),
            args_wf(*self) ==> args_wf(r),
        decreases self,
    {
        let names = clone_strings(&self.names);
        let columns = clone_strings(&self.columns);
        let mut cells: Vec<Cell> = Vec::new();
        let mut i: usize = 0;
        while i < self.cells.len()
            invariant
                i <= self.cells@.len(),
                cells@.len() == i,
                forall|j: int| #![all_triggers] 0 <= j < i ==> cells@[j].row == self.cells@[j].row
                    && cells@[j].col == self.cells@[j].col && value_equiv(
                    cells@[j].value,
                    self.cells@[j].value,
                ) && (value_wf(self.cells@[j].value) ==> value_wf(cells@[j].value)),
            decreases self.cells@.len() - i,
        {
            let c = &self.cells[i];
            cells.push(Cell { row: c.row, col: c.col, value: c.value.duplicate() });
            i = i + 1;
        }
        Args { names, columns, cells }
    }
}

} // verus!
