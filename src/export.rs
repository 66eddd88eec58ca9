use vstd::prelude::*;

use crate::columns::is_alias;
use crate::dataset::{copy_cells, names_view, Dataset, TableView};
use crate::rows::{keep, lemma_keep_all, lemma_keep_selects};
use crate::value::Value;

verus! {

/// The file formats a dataset can be written in.
#[derive(Debug, Clone, Copy, PartialEq, Eq, Structural)]
pub enum FileFormat {
    /// Delimited text: a header row of column names, then one row per record.
    Csv,
    /// The columnar binary container.
    Parquet,
}

/// Why an export failed.
#[derive(Debug, PartialEq)]
pub enum ExportError {
    /// No column was selected.
    EmptySelection,
    /// A selected column is not in the dataset.
    ColumnNotFound(String),
    /// The file could not be created or written.
    Io(String),
    /// The data could not be encoded.
    Encode(String),
}

/// The positions of the columns of `t` whose names are selected, in order.
pub open spec fn selected_positions(t: TableView, selection: Seq<Seq<char>>) -> Seq<int> {
    keep(t.columns.len(), |c: int| selection.contains(t.names[c]))
}

/// The columns of `t` whose names are selected, in their order in `t`.
pub open spec fn projected(t: TableView, selection: Seq<Seq<char>>) -> TableView {
    let cs = selected_positions(t, selection);
    TableView {
        names: cs.map_values(|c: int| t.names[c]),
        columns: cs.map_values(|c: int| t.columns[c]),
    }
}

/// Selected entry `k` is the first one that `t` lacks.
pub open spec fn first_missing(t: TableView, selection: Seq<Seq<char>>, k: int) -> bool {
    &&& 0 <= k < selection.len()
    &&& !t.has_column(selection[k])
    &&& forall|j: int| 0 <= j < k ==> #[trigger] t.has_column(selection[j])
}

pub open spec fn all_present(t: TableView, selection: Seq<Seq<char>>) -> bool {
    forall|j: int| 0 <= j < selection.len() ==> #[trigger] t.has_column(selection[j])
}

/// The dataset to hand to a writer: the selected columns, in the dataset's
/// order, with every row.  Fails on an empty selection, or, naming it, on the
/// first selected column that the dataset lacks.
pub fn select_columns(dataframe: &Dataset, columns: &Vec<String>) -> (r: Result<Dataset, ExportError>)
    requires
        dataframe@.wf(),
    ensures
        match r {
            Ok(d) => columns@.len() > 0 && all_present(dataframe@, names_view(columns@)) && d@
                == projected(dataframe@, names_view(columns@)) && d@.wf(),
            Err(ExportError::EmptySelection) => columns@.len() == 0,
            Err(ExportError::ColumnNotFound(name)) => columns@.len() > 0 && exists|k: int|
                first_missing(dataframe@, names_view(columns@), k) && name@ == columns@[k]@,
            _ => false,
        },
{
    let ghost t = dataframe@;
    let ghost sel = names_view(columns@);
    if columns.len() == 0 {
        return Err(ExportError::EmptySelection);
    }
    let mut j: usize = 0;
    while j < columns.len()
        invariant
            t == dataframe@,
            sel == names_view(columns@),
            t.wf(),
            j <= columns@.len(),
            forall|q: int| 0 <= q < j ==> #[trigger] t.has_column(sel[q]),
        decreases columns@.len() - j,
    {
        if dataframe.column_index(columns[j].as_str()).is_none() {
            assert(first_missing(t, sel, j as int));
            return Err(ExportError::ColumnNotFound(columns[j].clone()));
        }
        j = j + 1;
    }
    let ghost pick = |c: int| sel.contains(t.names[c]);
    let w = dataframe.width();
    let mut names: Vec<String> = Vec::new();
    let mut cols: Vec<Vec<Value>> = Vec::new();
    let ghost mut chosen: Seq<int> = Seq::empty();
    let mut c: usize = 0;
    while c < w
        invariant
            t == dataframe@,
            sel == names_view(columns@),
            t.wf(),
            w == t.columns.len(),
            c <= w,
            pick == (|x: int| sel.contains(t.names[x])),
            chosen == keep(c as nat, pick),
            forall|k: int| 0 <= k < chosen.len() ==> 0 <= #[trigger] chosen[k] < c,
            names@.len() == chosen.len(),
            forall|k: int| 0 <= k < chosen.len() ==> #[trigger] names@[k]@ == t.names[chosen[k]],
            cols@.len() == chosen.len(),
            forall|k: int| 0 <= k < chosen.len() ==> #[trigger] cols@[k]@ == t.columns[chosen[k]],
        decreases w - c,
    {
        let name = dataframe.name(c);
        if is_alias(name, columns) {
            names.push(name.clone());
            cols.push(copy_cells(dataframe.column(c)));
            proof {
                chosen = chosen.push(c as int);
            }
        }
        c = c + 1;
    }
    proof {
        lemma_keep_selects(w as nat, pick);
    }
    let d = Dataset::assemble(names, cols);
    proof {
        let p = projected(t, sel);
        assert(d@.columns =~= p.columns);
        assert(d@.names =~= p.names);
        assert(d@ == p);
        assert(t.names.len() == t.columns.len());
        assert forall|k: int| 0 <= k < p.columns.len() implies #[trigger] p.columns[k].len()
            == p.height() by {
            assert(p.columns[k] == t.columns[chosen[k]]);
            assert(t.columns[chosen[k]].len() == t.height());
            if p.columns.len() > 0 {
                assert(t.columns[chosen[0]].len() == t.height());
            }
        }
        assert forall|a: int, b: int| 0 <= a < b < p.names.len() implies p.names[a]
            != p.names[b] by {
            assert(chosen[a] < chosen[b]);
        }
    }
    Ok(d)
}

/// A projection holds exactly the selected columns, in the dataset's relative
/// order, with the dataset's row count.
pub proof fn lemma_projection(t: TableView, selection: Seq<Seq<char>>)
    requires
        t.wf(),
        selection.len() > 0,
        all_present(t, selection),
    ensures
        ({
            let p = projected(t, selection);
            let cs = selected_positions(t, selection);
            &&& forall|n: Seq<char>| p.names.contains(n) <==> selection.contains(n)
            &&& forall|j: int, k: int| 0 <= j < k < cs.len() ==> cs[j] < cs[k]
            &&& forall|j: int|
                0 <= j < cs.len() ==> 0 <= #[trigger] cs[j] < t.columns.len() && p.names[j]
                    == t.names[cs[j]] && p.columns[j] == t.columns[cs[j]]
            &&& p.height() == t.height()
        }),
{
    let p = projected(t, selection);
    let pick = |c: int| selection.contains(t.names[c]);
    let cs = selected_positions(t, selection);
    lemma_keep_selects(t.columns.len(), pick);
    assert forall|n: Seq<char>| p.names.contains(n) <==> selection.contains(n) by {
        if p.names.contains(n) {
            let j = choose|j: int| 0 <= j < p.names.len() && p.names[j] == n;
            assert(pick(cs[j]));
        }
        if selection.contains(n) {
            let k = choose|k: int| 0 <= k < selection.len() && selection[k] == n;
            assert(t.has_column(selection[k]));
            let c = choose|c: int| 0 <= c < t.names.len() && t.names[c] == n;
            assert(pick(c));
            assert(cs.contains(c));
            let j = choose|j: int| 0 <= j < cs.len() && cs[j] == c;
            assert(p.names[j] == n);
        }
    }
    let k = 0int;
    assert(t.has_column(selection[k]));
    let c = choose|c: int| 0 <= c < t.names.len() && t.names[c] == selection[k];
    assert(pick(c));
    assert(cs.contains(c));
    assert(cs.len() > 0);
    assert(t.columns[cs[0]].len() == t.height());
}

/// Selecting every column gives the dataset back.
pub proof fn lemma_projection_all(t: TableView, selection: Seq<Seq<char>>)
    requires
        t.wf(),
        forall|c: int| 0 <= c < t.names.len() ==> selection.contains(#[trigger] t.names[c]),
    ensures
        projected(t, selection) == t,
{
    let pick = |c: int| selection.contains(t.names[c]);
    lemma_keep_all(t.columns.len(), pick);
    let p = projected(t, selection);
    assert(p.names =~= t.names);
    assert(p.columns =~= t.columns);
}

} // verus!
