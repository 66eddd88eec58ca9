use vstd::prelude::*;

use crate::columns::{
    find_h3cell_columns, find_lat_lon_columns, h3_aliases, lat_lon_pair, lemma_role_column,
    longitude_aliases, latitude_aliases, role_column,
};
use crate::dataset::{names_view, Dataset, TableView};
use crate::value::Value;

verus! {

/// Every cell of the column is a float or null.
pub open spec fn is_float_column(col: Seq<Value>) -> bool {
    forall|i: int| 0 <= i < col.len() ==> (#[trigger] col[i] is Null || col[i] is Float)
}

/// Every cell of the column is a string or null.
pub open spec fn is_text_column(col: Seq<Value>) -> bool {
    forall|i: int| 0 <= i < col.len() ==> (#[trigger] col[i] is Null || col[i] is Text)
}

/// The bit patterns of the column's floats, nulls left out.
pub open spec fn float_values(col: Seq<Value>) -> Seq<u64>
    decreases col.len(),
{
    if col.len() == 0 {
        Seq::empty()
    } else {
        let s = float_values(col.drop_last());
        match col.last() {
            Value::Float(r) => s.push(r.bits),
            _ => s,
        }
    }
}

/// The column's strings, nulls left out.
pub open spec fn text_values(col: Seq<Value>) -> Seq<Seq<char>>
    decreases col.len(),
{
    if col.len() == 0 {
        Seq::empty()
    } else {
        let s = text_values(col.drop_last());
        match col.last() {
            Value::Text(t) => s.push(t@),
            _ => s,
        }
    }
}

/// Pairs of entries at the same position, up to the shorter of the two.
pub open spec fn zip_pairs(a: Seq<u64>, b: Seq<u64>) -> Seq<(u64, u64)> {
    Seq::new(
        if a.len() <= b.len() {
            a.len()
        } else {
            b.len()
        },
        |i: int| (a[i], b[i]),
    )
}

/// The column called `name` of `t`.
pub open spec fn named_column(t: TableView, name: Seq<char>) -> Seq<Value> {
    t.columns[t.column_position(name)]
}

/// The latitudes and longitudes of `t`, when both columns resolve and hold floats.
pub open spec fn lat_lon_values(t: TableView) -> Option<(Seq<u64>, Seq<u64>)> {
    match lat_lon_pair(t.names) {
        Some((a, b)) => if is_float_column(named_column(t, a)) && is_float_column(
            named_column(t, b),
        ) {
            Some((float_values(named_column(t, a)), float_values(named_column(t, b))))
        } else {
            None
        },
        None => None,
    }
}

/// The map positions of `t`: latitude and longitude paired by position.
pub open spec fn positions_of(t: TableView) -> Seq<(u64, u64)> {
    match lat_lon_values(t) {
        Some((a, b)) => zip_pairs(a, b),
        None => Seq::empty(),
    }
}

/// The H3 cells of `t`, when the column resolves and holds strings.
pub open spec fn h3_values(t: TableView) -> Option<Seq<Seq<char>>> {
    match role_column(t.names, h3_aliases()) {
        Some(a) => if is_text_column(named_column(t, a)) {
            Some(text_values(named_column(t, a)))
        } else {
            None
        },
        None => None,
    }
}

/// The floats of a column, nulls left out; `None` when a cell is neither.
pub fn float_column_values(col: &Vec<Value>) -> (r: Option<Vec<u64>>)
    ensures
        match r {
            Some(v) => is_float_column(col@) && v@ == float_values(col@),
            None => !is_float_column(col@),
        },
{
    let mut out: Vec<u64> = Vec::new();
    let mut i: usize = 0;
    while i < col.len()
        invariant
            i <= col@.len(),
            is_float_column(col@.subrange(0, i as int)),
            out@ == float_values(col@.subrange(0, i as int)),
        decreases col@.len() - i,
    {
        let ghost sub = col@.subrange(0, i + 1);
        assert(sub.drop_last() =~= col@.subrange(0, i as int));
        match &col[i] {
            Value::Float(x) => {
                out.push(x.bits);
            },
            Value::Null => {},
            _ => {
                assert(!(col@[i as int] is Null || col@[i as int] is Float));
                return None;
            },
        }
        i = i + 1;
        assert(is_float_column(col@.subrange(0, i as int))) by {
            assert forall|j: int| 0 <= j < i implies (#[trigger] col@.subrange(0, i as int)[j] is Null
                || col@.subrange(0, i as int)[j] is Float) by {
                if j < i - 1 {
                    assert(col@.subrange(0, i as int)[j] == col@.subrange(0, i - 1)[j]);
                }
            }
        }
    }
    assert(col@.subrange(0, i as int) =~= col@);
    Some(out)
}

/// The strings of a column, nulls left out; `None` when a cell is neither.
pub fn text_column_values(col: &Vec<Value>) -> (r: Option<Vec<String>>)
    ensures
        match r {
            Some(v) => is_text_column(col@) && names_view(v@) == text_values(col@),
            None => !is_text_column(col@),
        },
{
    let mut out: Vec<String> = Vec::new();
    let mut i: usize = 0;
    while i < col.len()
        invariant
            i <= col@.len(),
            is_text_column(col@.subrange(0, i as int)),
            names_view(out@) == text_values(col@.subrange(0, i as int)),
        decreases col@.len() - i,
    {
        let ghost sub = col@.subrange(0, i + 1);
        assert(sub.drop_last() =~= col@.subrange(0, i as int));
        let ghost before = out@;
        match &col[i] {
            Value::Text(s) => {
                out.push(s.clone());
                assert(names_view(out@) =~= names_view(before).push(s@));
            },
            Value::Null => {},
            _ => {
                assert(!(col@[i as int] is Null || col@[i as int] is Text));
                return None;
            },
        }
        i = i + 1;
        assert(is_text_column(col@.subrange(0, i as int))) by {
            assert forall|j: int| 0 <= j < i implies (#[trigger] col@.subrange(0, i as int)[j] is Null
                || col@.subrange(0, i as int)[j] is Text) by {
                if j < i - 1 {
                    assert(col@.subrange(0, i as int)[j] == col@.subrange(0, i - 1)[j]);
                }
            }
        }
    }
    assert(col@.subrange(0, i as int) =~= col@);
    Some(out)
}

/// The column of `dataframe` that a resolved role names.
fn resolved_column<'a>(dataframe: &'a Dataset, name: &String) -> (r: &'a Vec<Value>)
    requires
        dataframe@.wf(),
        exists|i: int| 0 <= i < dataframe@.names.len() && dataframe@.names[i] == name@,
    ensures
        r@ == named_column(dataframe@, name@),
{
    match dataframe.column_index(name.as_str()) {
        Some(c) => dataframe.column(c),
        None => {
            // not reached: the requirement names a column of the dataset
            proof {
                let i = choose|i: int| 0 <= i < dataframe@.names.len() && dataframe@.names[i] == name@;
            }
            dataframe.column(0)
        },
    }
}

/// The latitudes and longitudes of `dataframe`, as float bit patterns with
/// nulls left out of each column on its own; `None` when either column does
/// not resolve or holds something other than floats.
pub fn extract_lat_lons(dataframe: &Dataset) -> (r: Option<(Vec<u64>, Vec<u64>)>)
    requires
        dataframe@.wf(),
    ensures
        match r {
            Some((a, b)) => lat_lon_values(dataframe@) == Some((a@, b@)),
            None => lat_lon_values(dataframe@) is None,
        },
{
    let names = dataframe.column_names();
    match find_lat_lon_columns(&names) {
        None => None,
        Some((lat, lon)) => {
            proof {
                lemma_role_column(dataframe@.names, latitude_aliases());
                lemma_role_column(dataframe@.names, longitude_aliases());
            }
            let lat_col = resolved_column(dataframe, &lat);
            let lon_col = resolved_column(dataframe, &lon);
            match (float_column_values(lat_col), float_column_values(lon_col)) {
                (Some(a), Some(b)) => Some((a, b)),
                _ => None,
            }
        },
    }
}

/// The map positions of `dataframe`: latitude and longitude paired by
/// position, up to the shorter column; empty when they cannot be extracted.
pub fn lat_lon_positions(dataframe: &Dataset) -> (r: Vec<(u64, u64)>)
    requires
        dataframe@.wf(),
    ensures
        r@ == positions_of(dataframe@),
{
    match extract_lat_lons(dataframe) {
        None => Vec::new(),
        Some((a, b)) => {
            let n = if a.len() <= b.len() {
                a.len()
            } else {
                b.len()
            };
            let mut out: Vec<(u64, u64)> = Vec::new();
            let mut i: usize = 0;
            while i < n
                invariant
                    n <= a@.len(),
                    n <= b@.len(),
                    i <= n,
                    out@ == Seq::new(i as nat, |j: int| (a@[j], b@[j])),
                decreases n - i,
            {
                out.push((a[i], b[i]));
                i = i + 1;
                assert(out@ =~= Seq::new(i as nat, |j: int| (a@[j], b@[j])));
            }
            assert(out@ =~= zip_pairs(a@, b@));
            out
        },
    }
}

/// The H3 cells of `dataframe`, nulls left out; `None` when the column does
/// not resolve or holds something other than strings.
pub fn extract_h3cells(dataframe: &Dataset) -> (r: Option<Vec<String>>)
    requires
        dataframe@.wf(),
    ensures
        match r {
            Some(v) => h3_values(dataframe@) == Some(names_view(v@)),
            None => h3_values(dataframe@) is None,
        },
{
    let names = dataframe.column_names();
    match find_h3cell_columns(&names) {
        None => None,
        Some(h3) => {
            proof {
                lemma_role_column(dataframe@.names, h3_aliases());
            }
            let col = resolved_column(dataframe, &h3);
            text_column_values(col)
        },
    }
}

} // verus!
