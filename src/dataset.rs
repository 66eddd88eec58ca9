use vstd::prelude::*;

use crate::value::{same_text, Value};

verus! {

/// The mathematical content of a dataset: column names and, for each column,
/// its cells from the first row to the last.
pub struct TableView {
    pub names: Seq<Seq<char>>,
    pub columns: Seq<Seq<Value>>,
}

impl TableView {
    /// Number of rows (zero for a table without columns).
    pub open spec fn height(self) -> nat {
        if self.columns.len() == 0 {
            0
        } else {
            self.columns[0].len()
        }
    }

    /// One name per column, and every column as long as the first.
    pub open spec fn shape_ok(self) -> bool {
        &&& self.names.len() == self.columns.len()
        &&& forall|c: int| 0 <= c < self.columns.len() ==> #[trigger] self.columns[c].len() == self.height()
    }

    pub open spec fn names_distinct(self) -> bool {
        forall|i: int, j: int| 0 <= i < j < self.names.len() ==> self.names[i] != self.names[j]
    }

    pub open spec fn wf(self) -> bool {
        self.shape_ok() && self.names_distinct()
    }

    pub open spec fn has_column(self, name: Seq<char>) -> bool {
        exists|c: int| 0 <= c < self.names.len() && self.names[c] == name
    }

    /// The position of the column called `name` (meaningful when it exists).
    pub open spec fn column_position(self, name: Seq<char>) -> int {
        choose|c: int| 0 <= c < self.names.len() && self.names[c] == name
    }

    /// The table made of the given rows of this one, in the given order.
    pub open spec fn pick_rows(self, rows: Seq<int>) -> TableView {
        TableView {
            names: self.names,
            columns: self.columns.map_values(|col: Seq<Value>| rows.map_values(|i: int| col[i])),
        }
    }
}

/// The ways a set of columns can fail to form a dataset.
#[derive(Debug, PartialEq)]
pub enum DatasetError {
    /// The number of names differs from the number of columns, or the columns differ in length.
    ShapeMismatch,
    /// Two columns share a name.
    DuplicateName,
}

/// A table of named columns of equal length.
#[derive(Debug)]
pub struct Dataset {
    names: Vec<String>,
    columns: Vec<Vec<Value>>,
}

pub open spec fn names_view(names: Seq<String>) -> Seq<Seq<char>> {
    names.map_values(|s: String| s@)
}

pub open spec fn columns_view(columns: Seq<Vec<Value>>) -> Seq<Seq<Value>> {
    columns.map_values(|c: Vec<Value>| c@)
}

impl View for Dataset {
    type V = TableView;

    closed spec fn view(&self) -> TableView {
        TableView { names: names_view(self.names@), columns: columns_view(self.columns@) }
    }
}

/// The cells 0, 1, 2, ... numbering `n` rows.
pub open spec fn row_numbers(n: nat) -> Seq<Value> {
    Seq::new(n, |i: int| Value::Int(i as i64))
}

/// `t` with a first column called `name` that numbers its rows.
pub open spec fn with_index_view(t: TableView, name: Seq<char>) -> TableView {
    TableView {
        names: seq![name] + t.names,
        columns: seq![row_numbers(t.height())] + t.columns,
    }
}

/// A copy of a list of strings.
pub fn copy_strings(v: &Vec<String>) -> (r: Vec<String>)
    ensures
        r@ == v@,
{
    let mut out: Vec<String> = Vec::new();
    let mut i: usize = 0;
    while i < v.len()
        invariant
            i <= v@.len(),
            out@ == v@.subrange(0, i as int),
        decreases v@.len() - i,
    {
        out.push(v[i].clone());
        i = i + 1;
        assert(out@ =~= v@.subrange(0, i as int));
    }
    assert(out@ =~= v@);
    out
}

/// A copy of a column of cells.
pub fn copy_cells(col: &Vec<Value>) -> (r: Vec<Value>)
    ensures
        r@ == col@,
{
    let mut out: Vec<Value> = Vec::new();
    let mut k: usize = 0;
    while k < col.len()
        invariant
            k <= col@.len(),
            out@ == col@.subrange(0, k as int),
        decreases col@.len() - k,
    {
        out.push(col[k].copy());
        k = k + 1;
        assert(out@ =~= col@.subrange(0, k as int));
    }
    assert(out@ =~= col@);
    out
}

/// The given rows of one column, in the given order.
pub fn pick_cells(col: &Vec<Value>, rows: &Vec<usize>) -> (r: Vec<Value>)
    requires
        forall|k: int| 0 <= k < rows@.len() ==> rows@[k] < col@.len(),
    ensures
        r@ == rows@.map_values(|i: usize| i as int).map_values(|i: int| col@[i]),
{
    let mut out: Vec<Value> = Vec::new();
    let mut k: usize = 0;
    while k < rows.len()
        invariant
            k <= rows@.len(),
            forall|j: int| 0 <= j < rows@.len() ==> rows@[j] < col@.len(),
            out@ == rows@.subrange(0, k as int).map_values(|i: usize| i as int).map_values(
                |i: int| col@[i],
            ),
        decreases rows@.len() - k,
    {
        out.push(col[rows[k]].copy());
        k = k + 1;
        assert(out@ =~= rows@.subrange(0, k as int).map_values(|i: usize| i as int).map_values(
            |i: int| col@[i],
        ));
    }
    assert(rows@.subrange(0, k as int) =~= rows@);
    out
}

impl Dataset {
    /// Builds a dataset from names and columns.  Fails when the shape is wrong
    /// (checked first) or when two columns share a name.
    pub fn new(names: Vec<String>, columns: Vec<Vec<Value>>) -> (r: Result<Dataset, DatasetError>)
        ensures
            ({
                let t = TableView { names: names_view(names@), columns: columns_view(columns@) };
                match r {
                    Ok(d) => t.wf() && d@ == t,
                    Err(DatasetError::ShapeMismatch) => !t.shape_ok(),
                    Err(DatasetError::DuplicateName) => t.shape_ok() && !t.names_distinct(),
                }
            }),
    {
        let ghost t = TableView { names: names_view(names@), columns: columns_view(columns@) };
        if names.len() != columns.len() {
            return Err(DatasetError::ShapeMismatch);
        }
        if columns.len() > 0 {
            let h = columns[0].len();
            let mut c: usize = 1;
            while c < columns.len()
                invariant
                    1 <= c <= columns@.len(),
                    h == t.height(),
                    t.columns == columns_view(columns@),
                    forall|j: int| 0 <= j < c ==> #[trigger] t.columns[j].len() == h,
                decreases columns@.len() - c,
            {
                if columns[c].len() != h {
                    assert(t.columns[c as int] == columns@[c as int]@);
                    return Err(DatasetError::ShapeMismatch);
                }
                c = c + 1;
            }
        }
        assert(t.shape_ok());
        let mut i: usize = 0;
        while i < names.len()
            invariant
                i <= names@.len(),
                t.shape_ok(),
                t == (TableView { names: names_view(names@), columns: columns_view(columns@) }),
                forall|a: int, b: int| 0 <= a < b < names@.len() && a < i ==> t.names[a] != t.names[b],
            decreases names@.len() - i,
        {
            let mut j: usize = i + 1;
            while j < names.len()
                invariant
                    i < names@.len(),
                    i + 1 <= j <= names@.len(),
                    t.shape_ok(),
                    t == (TableView { names: names_view(names@), columns: columns_view(columns@) }),
                    forall|a: int, b: int| 0 <= a < b < names@.len() && a < i ==> t.names[a] != t.names[b],
                    forall|b: int| i < b < j ==> t.names[i as int] != t.names[b],
                decreases names@.len() - j,
            {
                if names[i] == names[j] {
                    assert(t.names[i as int] == t.names[j as int]);
                    assert(!t.names_distinct());
                    return Err(DatasetError::DuplicateName);
                }
                j = j + 1;
            }
            i = i + 1;
        }
        Ok(Dataset { names, columns })
    }

    /// Builds a dataset from parts already known to be well formed.
    pub(crate) fn assemble(names: Vec<String>, columns: Vec<Vec<Value>>) -> (r: Dataset)
        ensures
            r@ == (TableView { names: names_view(names@), columns: columns_view(columns@) }),
    {
        Dataset { names, columns }
    }

    /// Number of rows.
    pub fn height(&self) -> (r: usize)
        requires
            self@.wf(),
        ensures
            r == self@.height(),
    {
        if self.columns.len() == 0 {
            0
        } else {
            self.columns[0].len()
        }
    }

    /// Number of columns.
    pub fn width(&self) -> (r: usize)
        requires
            self@.wf(),
        ensures
            r == self@.columns.len(),
    {
        self.columns.len()
    }

    /// The column names, in order.
    pub fn column_names(&self) -> (r: Vec<String>)
        ensures
            names_view(r@) == self@.names,
    {
        copy_strings(&self.names)
    }

    /// The name of column `c`.
    pub fn name(&self, c: usize) -> (r: &String)
        requires
            self@.wf(),
            c < self@.columns.len(),
        ensures
            r@ == self@.names[c as int],
    {
        &self.names[c]
    }

    /// The cells of column `c`.
    pub fn column(&self, c: usize) -> (r: &Vec<Value>)
        requires
            self@.wf(),
            c < self@.columns.len(),
        ensures
            r@ == self@.columns[c as int],
    {
        &self.columns[c]
    }

    /// The position of the column called `name`, if there is one.
    pub fn column_index(&self, name: &str) -> (r: Option<usize>)
        requires
            self@.wf(),
        ensures
            match r {
                Some(c) => self@.has_column(name@) && c as int == self@.column_position(name@),
                None => !self@.has_column(name@),
            },
    {
        let mut c: usize = 0;
        while c < self.names.len()
            invariant
                c <= self.names@.len(),
                self@.wf(),
                self@.names == names_view(self.names@),
                forall|j: int| 0 <= j < c ==> self@.names[j] != name@,
            decreases self.names@.len() - c,
        {
            if same_text(self.names[c].as_str(), name) {
                let ghost p = self@.column_position(name@);
                assert(self@.names[c as int] == name@);
                assert(p == c as int);
                return Some(c);
            }
            c = c + 1;
        }
        None
    }

    /// This dataset with a first column called `name` that numbers the rows from 0.
    /// Fails when the dataset already has a column of that name.
    pub fn with_row_index(&self, name: &str) -> (r: Result<Dataset, DatasetError>)
        requires
            self@.wf(),
            self@.height() <= i64::MAX,
        ensures
            match r {
                Ok(d) => !self@.has_column(name@) && d@ == with_index_view(self@, name@) && d@.wf(),
                Err(DatasetError::DuplicateName) => self@.has_column(name@),
                Err(DatasetError::ShapeMismatch) => false,
            },
    {
        if self.column_index(name).is_some() {
            return Err(DatasetError::DuplicateName);
        }
        let h = self.height();
        let mut index: Vec<Value> = Vec::new();
        let mut i: usize = 0;
        while i < h
            invariant
                i <= h,
                h <= i64::MAX,
                index@ == row_numbers(i as nat),
            decreases h - i,
        {
            index.push(Value::Int(i as i64));
            i = i + 1;
            assert(index@ =~= row_numbers(i as nat));
        }
        let d = self.duplicate();
        let mut names: Vec<String> = Vec::new();
        names.push(String::from_str(name));
        let mut columns: Vec<Vec<Value>> = Vec::new();
        columns.push(index);
        let mut rest_names = d.names;
        let mut rest_columns = d.columns;
        names.append(&mut rest_names);
        columns.append(&mut rest_columns);
        let r = Dataset { names, columns };
        proof {
            let v = with_index_view(self@, name@);
            assert(r@.names =~= v.names);
            assert(r@.columns =~= v.columns);
            assert forall|c: int| 0 <= c < v.columns.len() implies #[trigger] v.columns[c].len()
                == v.height() by {
                if c > 0 {
                    assert(v.columns[c] == self@.columns[c - 1]);
                }
            }
            assert forall|a: int, b: int| 0 <= a < b < v.names.len() implies v.names[a]
                != v.names[b] by {
                if a == 0 {
                    assert(v.names[b] == self@.names[b - 1]);
                    if v.names[a] == v.names[b] {
                        assert(self@.has_column(name@));
                    }
                } else {
                    assert(v.names[a] == self@.names[a - 1]);
                    assert(v.names[b] == self@.names[b - 1]);
                }
            }
        }
        Ok(r)
    }

    /// A copy of this dataset.
    pub fn duplicate(&self) -> (r: Dataset)
        ensures
            r@ == self@,
    {
        let mut columns: Vec<Vec<Value>> = Vec::new();
        let mut c: usize = 0;
        while c < self.columns.len()
            invariant
                c <= self.columns@.len(),
                columns@.len() == c,
                forall|j: int| 0 <= j < c ==> #[trigger] columns@[j]@ == self.columns@[j]@,
            decreases self.columns@.len() - c,
        {
            let out = copy_cells(&self.columns[c]);
            columns.push(out);
            c = c + 1;
        }
        assert(columns_view(columns@) =~= columns_view(self.columns@));
        let names = copy_strings(&self.names);
        Dataset { names, columns }
    }

    /// The dataset made of the given rows, in the given order.
    pub fn pick(&self, rows: &Vec<usize>) -> (r: Dataset)
        requires
            self@.wf(),
            forall|k: int| 0 <= k < rows@.len() ==> rows@[k] < self@.height(),
        ensures
            r@ == self@.pick_rows(rows@.map_values(|i: usize| i as int)),
            r@.wf(),
    {
        let ghost ri = rows@.map_values(|i: usize| i as int);
        let mut columns: Vec<Vec<Value>> = Vec::new();
        let mut c: usize = 0;
        while c < self.columns.len()
            invariant
                c <= self.columns@.len(),
                self@.wf(),
                self@.columns == columns_view(self.columns@),
                ri == rows@.map_values(|i: usize| i as int),
                forall|k: int| 0 <= k < rows@.len() ==> rows@[k] < self@.height(),
                columns@.len() == c,
                forall|j: int|
                    0 <= j < c ==> #[trigger] columns@[j]@ == ri.map_values(
                        |i: int| self@.columns[j][i],
                    ),
            decreases self.columns@.len() - c,
        {
            assert(self@.columns[c as int].len() == self@.height());
            let out = pick_cells(&self.columns[c], rows);
            assert(out@ =~= ri.map_values(|i: int| self@.columns[c as int][i]));
            columns.push(out);
            c = c + 1;
        }
        let names = copy_strings(&self.names);
        let r = Dataset { names, columns };
        assert(r@.columns =~= self@.pick_rows(ri).columns);
        assert(r@ =~= self@.pick_rows(ri));
        proof {
            let p = self@.pick_rows(ri);
            assert forall|j: int| 0 <= j < p.columns.len() implies #[trigger] p.columns[j].len()
                == p.height() by {}
        }
        r
    }
}

} // verus!
