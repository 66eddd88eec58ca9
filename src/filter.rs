use vstd::prelude::*;

use crate::dataset::{Dataset, TableView};
use crate::rows::{
    keep, lemma_keep_all, lemma_keep_compose, lemma_keep_ext, lemma_keep_selects,
    lemma_pick_all, lemma_pick_pick, lemma_pick_shape, selects_exactly,
};
use crate::value::{chars_of, is_substring, occurs_at, text_of, Value};

verus! {

/// How a condition compares a cell's text with its value.
#[derive(Debug, Clone, Copy, PartialEq, Eq, Structural)]
pub enum FilterType {
    /// The text equals the value.
    Equals,
    /// The value occurs in the text.
    Contains,
}

impl FilterType {
    /// The name shown for the filter type.
    pub fn label(&self) -> (r: String)
        ensures
            r@ == (match *self {
                FilterType::Equals => "Equals"@,
                FilterType::Contains => "Contains"@,
            }),
    {
        match self {
            FilterType::Equals => String::from_str("Equals"),
            FilterType::Contains => String::from_str("Contains"),
        }
    }
}

/// One filter condition: a column, a comparison and a value.
#[derive(Debug, Clone)]
pub struct FilterCondition {
    pub filter_type: FilterType,
    pub column_name: String,
    pub filter_value: String,
}

impl FilterCondition {
    pub fn copy(&self) -> (r: FilterCondition)
        ensures
            r == *self,
    {
        FilterCondition {
            filter_type: self.filter_type,
            column_name: self.column_name.clone(),
            filter_value: self.filter_value.clone(),
        }
    }
}

/// Why a filter could not be applied.
#[derive(Debug, PartialEq)]
pub enum FilterError {
    /// A condition names a column that the dataset does not have.
    ColumnNotFound(String),
}

/// Whether a cell passes a comparison with `value`; a null cell never does.
pub open spec fn value_matches(ft: FilterType, v: Value, value: Seq<char>) -> bool {
    match text_of(v) {
        None => false,
        Some(t) => match ft {
            FilterType::Equals => t == value,
            FilterType::Contains => is_substring(value, t),
        },
    }
}

/// Whether row `r` of `t` passes condition `c`.
pub open spec fn cond_holds(t: TableView, c: FilterCondition, r: int) -> bool {
    value_matches(
        c.filter_type,
        t.columns[t.column_position(c.column_name@)][r],
        c.filter_value@,
    )
}

/// Whether row `r` of `t` passes every condition.
pub open spec fn row_passes(t: TableView, conds: Seq<FilterCondition>, r: int) -> bool {
    forall|k: int| 0 <= k < conds.len() ==> #[trigger] cond_holds(t, conds[k], r)
}

pub open spec fn columns_known(t: TableView, conds: Seq<FilterCondition>) -> bool {
    forall|k: int| 0 <= k < conds.len() ==> #[trigger] t.has_column(conds[k].column_name@)
}

/// Condition `k` is the first one whose column `t` lacks.
pub open spec fn first_unknown(t: TableView, conds: Seq<FilterCondition>, k: int) -> bool {
    &&& 0 <= k < conds.len()
    &&& !t.has_column(conds[k].column_name@)
    &&& forall|j: int| 0 <= j < k ==> #[trigger] t.has_column(conds[j].column_name@)
}

/// The rows of `t` that pass every condition, in their order.
pub open spec fn passing_rows(t: TableView, conds: Seq<FilterCondition>) -> Seq<int> {
    keep(t.height(), |r: int| row_passes(t, conds, r))
}

/// The table of the rows of `t` that pass every condition.
pub open spec fn filtered(t: TableView, conds: Seq<FilterCondition>) -> TableView {
    t.pick_rows(passing_rows(t, conds))
}

fn same_chars(a: &Vec<char>, b: &Vec<char>) -> (r: bool)
    ensures
        r == (a@ == b@),
{
    if a.len() != b.len() {
        return false;
    }
    let mut i: usize = 0;
    while i < a.len()
        invariant
            a@.len() == b@.len(),
            i <= a@.len(),
            forall|j: int| 0 <= j < i ==> a@[j] == b@[j],
        decreases a@.len() - i,
    {
        if a[i] != b[i] {
            return false;
        }
        i = i + 1;
    }
    assert(a@ =~= b@);
    true
}

fn occurs_here(needle: &Vec<char>, hay: &Vec<char>, at: usize) -> (r: bool)
    requires
        at + needle@.len() <= hay@.len(),
    ensures
        r == occurs_at(needle@, hay@, at as int),
{
    let n = hay.len();
    let mut i: usize = 0;
    while i < needle.len()
        invariant
            n == hay@.len(),
            at + needle@.len() <= hay@.len(),
            i <= needle@.len(),
            forall|j: int| 0 <= j < i ==> hay@[at + j] == needle@[j],
        decreases needle@.len() - i,
    {
        if hay[at + i] != needle[i] {
            assert(hay@.subrange(at as int, at + needle@.len())[i as int] != needle@[i as int]);
            return false;
        }
        i = i + 1;
    }
    assert(hay@.subrange(at as int, at + needle@.len()) =~= needle@);
    true
}

/// Whether `needle` occurs in `hay`.
pub fn contains_chars(hay: &Vec<char>, needle: &Vec<char>) -> (r: bool)
    ensures
        r == is_substring(needle@, hay@),
{
    if needle.len() > hay.len() {
        return false;
    }
    let last = hay.len() - needle.len();
    let mut at: usize = 0;
    loop
        invariant
            at <= last,
            last + needle@.len() == hay@.len(),
            forall|a: int| 0 <= a < at ==> !occurs_at(needle@, hay@, a),
        decreases last - at,
    {
        if occurs_here(needle, hay, at) {
            return true;
        }
        if at == last {
            assert(forall|a: int| !occurs_at(needle@, hay@, a));
            return false;
        }
        at = at + 1;
    }
}

/// Whether a cell passes a comparison with `value`.
pub fn cell_matches(ft: FilterType, v: &Value, value: &Vec<char>) -> (r: bool)
    ensures
        r == value_matches(ft, *v, value@),
{
    match v.text() {
        None => false,
        Some(t) => match ft {
            FilterType::Equals => same_chars(&t, value),
            FilterType::Contains => contains_chars(&t, value),
        },
    }
}

/// Keeps the rows of `dataframe` that pass every condition (all of them when
/// there is none).  Fails, naming the column, when a condition names a column
/// that the dataset lacks; the first such condition is reported.
pub fn filter_dataframe(dataframe: &Dataset, filters: &[FilterCondition]) -> (r: Result<
    Dataset,
    FilterError,
>)
    requires
        dataframe@.wf(),
    ensures
        match r {
            Ok(d) => columns_known(dataframe@, filters@) && d@ == filtered(dataframe@, filters@)
                && d@.wf(),
            Err(FilterError::ColumnNotFound(name)) => exists|k: int|
                first_unknown(dataframe@, filters@, k) && name@ == filters@[k].column_name@,
        },
{
    let ghost t = dataframe@;
    let ghost conds = filters@;
    let mut positions: Vec<usize> = Vec::new();
    let mut values: Vec<Vec<char>> = Vec::new();
    let mut k: usize = 0;
    while k < filters.len()
        invariant
            t == dataframe@,
            conds == filters@,
            t.wf(),
            k <= conds.len(),
            positions@.len() == k,
            values@.len() == k,
            forall|j: int| 0 <= j < k ==> #[trigger] t.has_column(conds[j].column_name@),
            forall|j: int|
                0 <= j < k ==> #[trigger] positions@[j] == t.column_position(
                    conds[j].column_name@,
                ) && positions@[j] < t.columns.len() && values@[j]@ == conds[j].filter_value@,
        decreases conds.len() - k,
    {
        match dataframe.column_index(filters[k].column_name.as_str()) {
            Some(c) => {
                proof {
                    let name = conds[k as int].column_name@;
                    assert(t.has_column(name));
                    let p = t.column_position(name);
                    assert(0 <= p < t.names.len() && t.names[p] == name);
                    assert(t.names.len() == t.columns.len());
                }
                positions.push(c);
                values.push(chars_of(filters[k].filter_value.as_str()));
            },
            None => {
                assert(first_unknown(t, conds, k as int));
                return Err(FilterError::ColumnNotFound(filters[k].column_name.clone()));
            },
        }
        k = k + 1;
    }
    let ghost pass = |r: int| row_passes(t, conds, r);
    let h = dataframe.height();
    let mut kept: Vec<usize> = Vec::new();
    let mut r: usize = 0;
    while r < h
        invariant
            t == dataframe@,
            conds == filters@,
            t.wf(),
            h == t.height(),
            r <= h,
            pass == (|x: int| row_passes(t, conds, x)),
            positions@.len() == conds.len(),
            values@.len() == conds.len(),
            forall|j: int| 0 <= j < conds.len() ==> #[trigger] t.has_column(conds[j].column_name@),
            forall|j: int|
                0 <= j < conds.len() ==> #[trigger] positions@[j] == t.column_position(
                    conds[j].column_name@,
                ) && positions@[j] < t.columns.len() && values@[j]@ == conds[j].filter_value@,
            kept@.map_values(|i: usize| i as int) == keep(r as nat, pass),
            forall|j: int| 0 <= j < kept@.len() ==> kept@[j] < r,
        decreases h - r,
    {
        let mut ok = true;
        let mut j: usize = 0;
        while j < positions.len()
            invariant
                t == dataframe@,
                conds == filters@,
                t.wf(),
                h == t.height(),
                r < h,
                j <= conds.len(),
                positions@.len() == conds.len(),
                values@.len() == conds.len(),
                forall|q: int|
                    0 <= q < conds.len() ==> #[trigger] positions@[q] == t.column_position(
                        conds[q].column_name@,
                    ) && positions@[q] < t.columns.len() && values@[q]@ == conds[q].filter_value@,
                ok == (forall|q: int| 0 <= q < j ==> #[trigger] cond_holds(t, conds[q], r as int)),
            decreases conds.len() - j,
        {
            let col = dataframe.column(positions[j]);
            assert(t.columns[positions@[j as int] as int].len() == t.height());
            let m = cell_matches(filters[j].filter_type, &col[r], &values[j]);
            assert(m == cond_holds(t, conds[j as int], r as int));
            ok = ok && m;
            j = j + 1;
        }
        assert(ok == pass(r as int));
        let ghost before = kept@;
        if ok {
            kept.push(r);
        }
        r = r + 1;
        assert(kept@.map_values(|i: usize| i as int) =~= keep(r as nat, pass));
    }
    proof {
        assert(kept@.map_values(|i: usize| i as int) == passing_rows(t, conds));
    }
    let d = dataframe.pick(&kept);
    Ok(d)
}

/// Filtering with no conditions gives the dataset back unchanged: same
/// columns, same rows, same order.
pub proof fn lemma_filter_none(t: TableView)
    requires
        t.wf(),
    ensures
        filtered(t, Seq::empty()) == t,
{
    let conds = Seq::<FilterCondition>::empty();
    lemma_keep_all(t.height(), |r: int| row_passes(t, conds, r));
    lemma_pick_all(t);
}

/// The result of one condition holds exactly the rows of the dataset that pass
/// it, in their order; each of its rows passes.
pub proof fn lemma_filter_single(t: TableView, c: FilterCondition)
    requires
        t.wf(),
        t.has_column(c.column_name@),
    ensures
        ({
            let col = t.column_position(c.column_name@);
            let res = filtered(t, seq![c]);
            &&& selects_exactly(
                passing_rows(t, seq![c]),
                t.height(),
                |r: int| value_matches(c.filter_type, t.columns[col][r], c.filter_value@),
            )
            &&& res == t.pick_rows(passing_rows(t, seq![c]))
            &&& res.wf()
            &&& res.height() == passing_rows(t, seq![c]).len()
            &&& forall|j: int|
                0 <= j < res.height() ==> value_matches(
                    c.filter_type,
                    #[trigger] res.columns[col][j],
                    c.filter_value@,
                )
        }),
{
    let conds = seq![c];
    let col = t.column_position(c.column_name@);
    let one = |r: int| value_matches(c.filter_type, t.columns[col][r], c.filter_value@);
    let pass = |r: int| row_passes(t, conds, r);
    assert forall|r: int| 0 <= r < t.height() implies #[trigger] pass(r) == one(r) by {
        if one(r) {
            assert forall|k: int| 0 <= k < conds.len() implies #[trigger] cond_holds(
                t,
                conds[k],
                r,
            ) by {
                assert(conds[k] == c);
            }
        }
        if pass(r) {
            assert(cond_holds(t, conds[0], r));
        }
    }
    lemma_keep_ext(t.height(), pass, one);
    lemma_keep_selects(t.height(), one);
    let rows = passing_rows(t, conds);
    lemma_pick_shape(t, rows);
    assert(t.columns.len() > 0);
}

/// Every row kept by an `Equals` condition has exactly the value as text, and
/// every row of the dataset with that text is kept.
pub proof fn lemma_filter_equals(t: TableView, c: FilterCondition)
    requires
        t.wf(),
        t.has_column(c.column_name@),
        c.filter_type == FilterType::Equals,
    ensures
        ({
            let col = t.column_position(c.column_name@);
            let res = filtered(t, seq![c]);
            &&& forall|j: int|
                0 <= j < res.height() ==> text_of(#[trigger] res.columns[col][j]) == Some(
                    c.filter_value@,
                )
            &&& selects_exactly(
                passing_rows(t, seq![c]),
                t.height(),
                |r: int| text_of(t.columns[col][r]) == Some(c.filter_value@),
            )
            &&& res == t.pick_rows(passing_rows(t, seq![c]))
        }),
{
    lemma_filter_single(t, c);
    let col = t.column_position(c.column_name@);
    let res = filtered(t, seq![c]);
    assert forall|j: int| 0 <= j < res.height() implies text_of(#[trigger] res.columns[col][j])
        == Some(c.filter_value@) by {
        assert(value_matches(c.filter_type, res.columns[col][j], c.filter_value@));
    }
    let one = |r: int| value_matches(c.filter_type, t.columns[col][r], c.filter_value@);
    let eq = |r: int| text_of(t.columns[col][r]) == Some(c.filter_value@);
    assert forall|r: int| #[trigger] one(r) == eq(r) by {}
    assert(one == eq);
}

/// Every row kept by a `Contains` condition has the value inside its text, and
/// every row of the dataset whose text holds the value is kept.
pub proof fn lemma_filter_contains(t: TableView, c: FilterCondition)
    requires
        t.wf(),
        t.has_column(c.column_name@),
        c.filter_type == FilterType::Contains,
    ensures
        ({
            let col = t.column_position(c.column_name@);
            let res = filtered(t, seq![c]);
            &&& forall|j: int|
                0 <= j < res.height() ==> (#[trigger] text_of(res.columns[col][j])) is Some
                    && is_substring(c.filter_value@, text_of(res.columns[col][j])->0)
            &&& selects_exactly(
                passing_rows(t, seq![c]),
                t.height(),
                |r: int|
                    text_of(t.columns[col][r]) is Some && is_substring(
                        c.filter_value@,
                        text_of(t.columns[col][r])->0,
                    ),
            )
            &&& res == t.pick_rows(passing_rows(t, seq![c]))
        }),
{
    lemma_filter_single(t, c);
    let col = t.column_position(c.column_name@);
    let res = filtered(t, seq![c]);
    assert forall|j: int| 0 <= j < res.height() implies (#[trigger] text_of(
        res.columns[col][j],
    )) is Some && is_substring(c.filter_value@, text_of(res.columns[col][j])->0) by {
        assert(value_matches(c.filter_type, res.columns[col][j], c.filter_value@));
    }
    let one = |r: int| value_matches(c.filter_type, t.columns[col][r], c.filter_value@);
    let in_text = |r: int|
        text_of(t.columns[col][r]) is Some && is_substring(
            c.filter_value@,
            text_of(t.columns[col][r])->0,
        );
    assert forall|r: int| #[trigger] one(r) == in_text(r) by {}
    assert(one == in_text);
}

/// Two conditions together keep what the second keeps of what the first kept.
pub proof fn lemma_filter_and(t: TableView, c1: FilterCondition, c2: FilterCondition)
    requires
        t.wf(),
        t.has_column(c1.column_name@),
        t.has_column(c2.column_name@),
    ensures
        filtered(t, seq![c1, c2]) == filtered(filtered(t, seq![c1]), seq![c2]),
{
    let p = |r: int| row_passes(t, seq![c1], r);
    let k1 = keep(t.height(), p);
    let t1 = t.pick_rows(k1);
    lemma_keep_selects(t.height(), p);
    lemma_pick_shape(t, k1);
    assert(t.columns.len() > 0);
    let col2 = t.column_position(c2.column_name@);
    assert(t1.names == t.names);
    let q = |r: int| cond_holds(t, c2, r);
    let q1 = |j: int| row_passes(t1, seq![c2], j);
    assert forall|j: int| 0 <= j < k1.len() implies #[trigger] q1(j) == q(k1[j]) by {
        assert(t1.columns[col2][j] == t.columns[col2][k1[j]]);
        if q(k1[j]) {
            assert forall|m: int| 0 <= m < 1 implies #[trigger] cond_holds(t1, seq![c2][m], j) by {
                assert(seq![c2][m] == c2);
            }
        }
        if q1(j) {
            assert(cond_holds(t1, seq![c2][0], j));
        }
    }
    lemma_keep_ext(k1.len(), q1, |j: int| q(k1[j]));
    lemma_keep_compose(t.height(), p, q);
    let k2 = keep(k1.len(), q1);
    lemma_keep_selects(k1.len(), q1);
    lemma_pick_pick(t, k1, k2);
    let both = |r: int| row_passes(t, seq![c1, c2], r);
    assert forall|r: int| 0 <= r < t.height() implies #[trigger] both(r) == (p(r) && q(r)) by {
        let cs = seq![c1, c2];
        if p(r) && q(r) {
            assert(cond_holds(t, seq![c1][0], r));
            assert forall|m: int| 0 <= m < 2 implies #[trigger] cond_holds(t, cs[m], r) by {
                if m == 0 {
                    assert(cs[m] == c1);
                } else {
                    assert(cs[m] == c2);
                }
            }
        }
        if both(r) {
            assert(cond_holds(t, cs[0], r));
            assert(cond_holds(t, cs[1], r));
            assert forall|m: int| 0 <= m < 1 implies #[trigger] cond_holds(t, seq![c1][m], r) by {
                assert(seq![c1][m] == c1);
            }
        }
    }
    lemma_keep_ext(t.height(), both, |r: int| p(r) && q(r));
}

} // verus!
