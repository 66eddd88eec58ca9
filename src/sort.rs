use vstd::prelude::*;

use crate::dataset::{Dataset, TableView};
use crate::rows::{lemma_pick_all, lemma_pick_shape};
use crate::value::{less, lemma_value_order, value_lt, value_ties, Value};

verus! {

/// The active sort: a column and a direction.
#[derive(Debug, Clone)]
pub struct SortCondition {
    pub column_name: String,
    pub ascending: bool,
}

impl SortCondition {
    pub fn copy(&self) -> (r: SortCondition)
        ensures
            r == *self,
    {
        SortCondition { column_name: self.column_name.clone(), ascending: self.ascending }
    }
}

/// Why a sort could not be applied.
#[derive(Debug, PartialEq)]
pub enum SortError {
    /// The sort names a column that the dataset does not have.
    ColumnNotFound(String),
}

/// Row `i` comes before row `j` when the dataset is sorted on `col`: by the
/// cells' order in the given direction, and by row position among ties.
pub open spec fn precedes(col: Seq<Value>, asc: bool, i: int, j: int) -> bool {
    if value_ties(col[i], col[j]) {
        i < j
    } else if asc {
        value_lt(col[i], col[j])
    } else {
        value_lt(col[j], col[i])
    }
}

/// `p` lists each of the rows `0 .. n` exactly once.
pub open spec fn is_permutation(p: Seq<int>, n: nat) -> bool {
    &&& p.len() == n
    &&& forall|j: int| 0 <= j < p.len() ==> 0 <= #[trigger] p[j] < n
    &&& forall|j: int, k: int| 0 <= j < k < p.len() ==> p[j] != p[k]
    &&& forall|x: int| 0 <= x < n ==> #[trigger] p.contains(x)
}

/// `p` is the row order of a stable sort on `col`.
pub open spec fn is_stable_order(col: Seq<Value>, asc: bool, p: Seq<int>) -> bool {
    &&& is_permutation(p, col.len())
    &&& forall|j: int, k: int| 0 <= j < k < p.len() ==> precedes(col, asc, #[trigger] p[j], #[trigger] p[k])
}

/// Where row `i` goes in `s`: after the last row of `s` that precedes it.
pub open spec fn insert_pos(col: Seq<Value>, asc: bool, s: Seq<int>, i: int) -> int
    decreases s.len(),
{
    if s.len() == 0 {
        0
    } else if precedes(col, asc, s.last(), i) {
        s.len() as int
    } else {
        insert_pos(col, asc, s.drop_last(), i)
    }
}

/// The sorted order of the rows `0 .. n`.
pub open spec fn order_upto(col: Seq<Value>, asc: bool, n: nat) -> Seq<int>
    decreases n,
{
    if n == 0 {
        Seq::empty()
    } else {
        let s = order_upto(col, asc, (n - 1) as nat);
        s.insert(insert_pos(col, asc, s, n - 1), n - 1)
    }
}

/// The row order of a stable sort of `col` (see `lemma_stable_order`).
pub open spec fn stable_order(col: Seq<Value>, asc: bool) -> Seq<int> {
    order_upto(col, asc, col.len())
}

/// The table `t` sorted on its column `c`.
pub open spec fn sorted_table(t: TableView, c: int, asc: bool) -> TableView {
    t.pick_rows(stable_order(t.columns[c], asc))
}

/// Cells of `col` never decrease from one row to the next.
pub open spec fn non_decreasing(col: Seq<Value>) -> bool {
    forall|j: int, k: int| 0 <= j < k < col.len() ==> !value_lt(#[trigger] col[k], #[trigger] col[j])
}

/// No two cells of `col` tie.
pub open spec fn no_ties(col: Seq<Value>) -> bool {
    forall|j: int, k: int| 0 <= j < k < col.len() ==> !value_ties(#[trigger] col[j], #[trigger] col[k])
}

proof fn lemma_precedes(col: Seq<Value>, asc: bool, i: int, j: int, k: int)
    requires
        0 <= i < col.len(),
        0 <= j < col.len(),
        0 <= k < col.len(),
    ensures
        !precedes(col, asc, i, i),
        precedes(col, asc, i, j) ==> !precedes(col, asc, j, i),
        i != j ==> precedes(col, asc, i, j) || precedes(col, asc, j, i),
        precedes(col, asc, i, j) && precedes(col, asc, j, k) ==> precedes(col, asc, i, k),
{
    lemma_value_order(col[i], col[j], col[k]);
    lemma_value_order(col[j], col[k], col[i]);
    lemma_value_order(col[k], col[i], col[j]);
    lemma_value_order(col[j], col[i], col[k]);
    lemma_value_order(col[i], col[k], col[j]);
    lemma_value_order(col[k], col[j], col[i]);
}

proof fn lemma_insert_pos(col: Seq<Value>, asc: bool, s: Seq<int>, i: int)
    ensures
        0 <= insert_pos(col, asc, s, i) <= s.len(),
        forall|k: int|
            insert_pos(col, asc, s, i) <= k < s.len() ==> !precedes(col, asc, #[trigger] s[k], i),
        insert_pos(col, asc, s, i) > 0 ==> precedes(
            col,
            asc,
            s[insert_pos(col, asc, s, i) - 1],
            i,
        ),
    decreases s.len(),
{
    if s.len() > 0 && !precedes(col, asc, s.last(), i) {
        lemma_insert_pos(col, asc, s.drop_last(), i);
        let pos = insert_pos(col, asc, s, i);
        assert forall|k: int| pos <= k < s.len() implies !precedes(col, asc, #[trigger] s[k], i) by {
            if k < s.len() - 1 {
                assert(s.drop_last()[k] == s[k]);
            } else {
                assert(s[k] == s.last());
            }
        }
        if pos > 0 {
            assert(s.drop_last()[pos - 1] == s[pos - 1]);
        }
    }
}

proof fn lemma_order_upto(col: Seq<Value>, asc: bool, n: nat)
    requires
        n <= col.len(),
    ensures
        is_permutation(order_upto(col, asc, n), n),
        forall|j: int, k: int|
            0 <= j < k < n ==> precedes(
                col,
                asc,
                #[trigger] order_upto(col, asc, n)[j],
                #[trigger] order_upto(col, asc, n)[k],
            ),
    decreases n,
{
    if n > 0 {
        let m = (n - 1) as nat;
        lemma_order_upto(col, asc, m);
        let s = order_upto(col, asc, m);
        let i = n - 1;
        let pos = insert_pos(col, asc, s, i);
        lemma_insert_pos(col, asc, s, i);
        let u = s.insert(pos, i);
        s.insert_ensures(pos, i);
        assert(u == order_upto(col, asc, n));
        assert forall|j: int| 0 <= j < u.len() implies 0 <= #[trigger] u[j] < n by {
            if j > pos {
                assert(u[j] == s[j - 1]);
            }
        }
        assert forall|x: int| 0 <= x < n implies #[trigger] u.contains(x) by {
            if x < m {
                assert(s.contains(x));
                let j = choose|j: int| 0 <= j < s.len() && s[j] == x;
                if j < pos {
                    assert(u[j] == x);
                } else {
                    assert(u[j + 1] == x);
                }
            } else {
                assert(u[pos] == x);
            }
        }
        assert forall|j: int, k: int| 0 <= j < k < u.len() implies precedes(
            col,
            asc,
            #[trigger] u[j],
            #[trigger] u[k],
        ) by {
            if k < pos {
                assert(precedes(col, asc, s[j], s[k]));
            } else if j > pos {
                assert(precedes(col, asc, s[j - 1], s[k - 1]));
            } else if k == pos {
                if j < pos - 1 {
                    assert(precedes(col, asc, s[j], s[pos - 1]));
                    lemma_precedes(col, asc, s[j], s[pos - 1], i);
                }
            } else if j == pos {
                assert(!precedes(col, asc, s[k - 1], i));
                lemma_precedes(col, asc, i, s[k - 1], i);
            } else {
                assert(precedes(col, asc, s[j], s[k - 1]));
            }
        }
        assert forall|j: int, k: int| 0 <= j < k < u.len() implies u[j] != u[k] by {
            lemma_precedes(col, asc, u[j], u[k], u[k]);
        }
    }
}

/// `stable_order` is a stable sort: it lists every row once, sorted on the
/// column in the given direction, keeping the original order among ties.
pub proof fn lemma_stable_order(col: Seq<Value>, asc: bool)
    ensures
        is_stable_order(col, asc, stable_order(col, asc)),
{
    lemma_order_upto(col, asc, col.len());
}

proof fn lemma_unique_prefix(col: Seq<Value>, asc: bool, p: Seq<int>, q: Seq<int>, n: int)
    requires
        is_stable_order(col, asc, p),
        is_stable_order(col, asc, q),
        0 <= n <= p.len(),
    ensures
        forall|i: int| 0 <= i < n ==> p[i] == q[i],
    decreases n,
{
    if n > 0 {
        let j = n - 1;
        lemma_unique_prefix(col, asc, p, q, j);
        assert(q.contains(p[j]));
        let k = choose|k: int| 0 <= k < q.len() && q[k] == p[j];
        assert(p.contains(q[j]));
        let m = choose|m: int| 0 <= m < p.len() && p[m] == q[j];
        if k != j && m != j {
            if k < j {
                assert(p[k] == q[k]);
            } else if m < j {
                assert(p[m] == q[m]);
            } else {
                assert(precedes(col, asc, p[j], p[m]));
                assert(precedes(col, asc, q[j], q[k]));
                lemma_precedes(col, asc, p[j], q[j], p[j]);
            }
        }
    }
}

/// There is only one stable order of a column in a given direction.
pub proof fn lemma_stable_order_unique(col: Seq<Value>, asc: bool, p: Seq<int>)
    requires
        is_stable_order(col, asc, p),
    ensures
        p == stable_order(col, asc),
{
    let q = stable_order(col, asc);
    lemma_stable_order(col, asc);
    lemma_unique_prefix(col, asc, p, q, p.len() as int);
    assert(p =~= q);
}

/// Sorting ascending a dataset whose column is already in ascending order
/// leaves it as it is.
pub proof fn lemma_sort_already_sorted(t: TableView, c: int)
    requires
        t.wf(),
        0 <= c < t.columns.len(),
        non_decreasing(t.columns[c]),
    ensures
        sorted_table(t, c, true) == t,
{
    let col = t.columns[c];
    let id = Seq::new(col.len(), |i: int| i);
    assert forall|j: int, k: int| 0 <= j < k < id.len() implies precedes(
        col,
        true,
        #[trigger] id[j],
        #[trigger] id[k],
    ) by {
        lemma_value_order(col[j], col[k], col[k]);
        assert(!value_lt(col[k], col[j]));
    }
    assert forall|x: int| 0 <= x < col.len() implies #[trigger] id.contains(x) by {
        assert(id[x] == x);
    }
    lemma_stable_order_unique(col, true, id);
    assert(col.len() == t.height());
    lemma_pick_all(t);
}

/// A sorted dataset is in ascending order on its sort column.
pub proof fn lemma_sorted_is_non_decreasing(t: TableView, c: int)
    requires
        t.wf(),
        0 <= c < t.columns.len(),
    ensures
        sorted_table(t, c, true).wf(),
        sorted_table(t, c, true).names == t.names,
        non_decreasing(sorted_table(t, c, true).columns[c]),
{
    let col = t.columns[c];
    let p = stable_order(col, true);
    lemma_stable_order(col, true);
    assert(col.len() == t.height());
    lemma_pick_shape(t, p);
    let s = sorted_table(t, c, true).columns[c];
    assert forall|j: int, k: int| 0 <= j < k < s.len() implies !value_lt(
        #[trigger] s[k],
        #[trigger] s[j],
    ) by {
        assert(s[j] == col[p[j]]);
        assert(s[k] == col[p[k]]);
        assert(precedes(col, true, p[j], p[k]));
        lemma_value_order(col[p[j]], col[p[k]], col[p[k]]);
    }
}

/// Sorting ascending twice on the same column gives the same order as once.
pub proof fn lemma_sort_idempotent(t: TableView, c: int)
    requires
        t.wf(),
        0 <= c < t.columns.len(),
    ensures
        sorted_table(sorted_table(t, c, true), c, true) == sorted_table(t, c, true),
{
    lemma_sorted_is_non_decreasing(t, c);
    lemma_sort_already_sorted(sorted_table(t, c, true), c);
}

/// Where no two cells of the sort column tie, the descending order is the
/// ascending order reversed.
pub proof fn lemma_sort_reverse(t: TableView, c: int)
    requires
        t.wf(),
        0 <= c < t.columns.len(),
        no_ties(t.columns[c]),
    ensures
        stable_order(t.columns[c], false) == stable_order(t.columns[c], true).reverse(),
        forall|k: int|
            0 <= k < t.columns.len() ==> #[trigger] sorted_table(t, c, false).columns[k]
                == sorted_table(t, c, true).columns[k].reverse(),
{
    let col = t.columns[c];
    let p = stable_order(col, true);
    lemma_stable_order(col, true);
    let n = p.len();
    let q = p.reverse();
    assert(q.len() == n);
    assert forall|j: int| 0 <= j < n implies #[trigger] q[j] == p[n - 1 - j] by {}
    assert forall|j: int| 0 <= j < q.len() implies 0 <= #[trigger] q[j] < col.len() by {
        assert(q[j] == p[n - 1 - j]);
    }
    assert forall|j: int, k: int| 0 <= j < k < q.len() implies q[j] != q[k] by {
        assert(q[j] == p[n - 1 - j]);
        assert(q[k] == p[n - 1 - k]);
        assert(precedes(col, true, p[n - 1 - k], p[n - 1 - j]));
        lemma_precedes(col, true, p[n - 1 - k], p[n - 1 - k], p[n - 1 - k]);
    }
    assert forall|x: int| 0 <= x < col.len() implies #[trigger] q.contains(x) by {
        assert(p.contains(x));
        let j = choose|j: int| 0 <= j < p.len() && p[j] == x;
        assert(q[n - 1 - j] == x);
    }
    assert forall|j: int, k: int| 0 <= j < k < q.len() implies precedes(
        col,
        false,
        #[trigger] q[j],
        #[trigger] q[k],
    ) by {
        let a = p[n - 1 - k];
        let b = p[n - 1 - j];
        assert(q[j] == b);
        assert(q[k] == a);
        assert(precedes(col, true, a, b));
        if a < b {
            assert(!value_ties(col[a], col[b]));
        } else {
            assert(!value_ties(col[b], col[a]));
            lemma_value_order(col[a], col[b], col[a]);
        }
    }
    lemma_stable_order_unique(col, false, q);
    assert(col.len() == t.height());
    assert forall|k: int| 0 <= k < t.columns.len() implies #[trigger] sorted_table(
        t,
        c,
        false,
    ).columns[k] == sorted_table(t, c, true).columns[k].reverse() by {
        let d = sorted_table(t, c, false).columns[k];
        let a = sorted_table(t, c, true).columns[k];
        assert(d =~= a.reverse());
    }
}

/// Whether row `i` comes before row `j` in the sort on `col`.
fn precedes_exec(col: &Vec<Value>, asc: bool, i: usize, j: usize) -> (r: bool)
    requires
        i < col@.len(),
        j < col@.len(),
    ensures
        r == precedes(col@, asc, i as int, j as int),
{
    proof {
        lemma_value_order(col@[i as int], col@[j as int], col@[j as int]);
    }
    if less(&col[i], &col[j]) {
        asc
    } else if less(&col[j], &col[i]) {
        !asc
    } else {
        i < j
    }
}

/// The row order of a stable sort of `col` in the given direction.
pub fn stable_sort_order(col: &Vec<Value>, asc: bool) -> (r: Vec<usize>)
    ensures
        r@.map_values(|x: usize| x as int) == stable_order(col@, asc),
{
    let n = col.len();
    let mut perm: Vec<usize> = Vec::new();
    let mut i: usize = 0;
    while i < n
        invariant
            n == col@.len(),
            i <= n,
            perm@.map_values(|x: usize| x as int) == order_upto(col@, asc, i as nat),
            forall|j: int| 0 <= j < perm@.len() ==> #[trigger] perm@[j] < i,
        decreases n - i,
    {
        let ghost s = perm@.map_values(|x: usize| x as int);
        proof {
            lemma_order_upto(col@, asc, i as nat);
        }
        let mut p: usize = perm.len();
        assert(s.subrange(0, p as int) =~= s);
        loop
            invariant
                n == col@.len(),
                i < n,
                s == perm@.map_values(|x: usize| x as int),
                forall|j: int| 0 <= j < perm@.len() ==> #[trigger] perm@[j] < i,
                p <= perm@.len(),
                insert_pos(col@, asc, s, i as int) == insert_pos(
                    col@,
                    asc,
                    s.subrange(0, p as int),
                    i as int,
                ),
            ensures
                p <= perm@.len(),
                insert_pos(col@, asc, s, i as int) == p,
            decreases p,
        {
            if p == 0 {
                break;
            }
            let ghost sp = s.subrange(0, p as int);
            assert(sp.last() == perm@[p - 1] as int);
            assert(sp.drop_last() =~= s.subrange(0, p - 1));
            if precedes_exec(col, asc, perm[p - 1], i) {
                break;
            }
            p = p - 1;
        }
        perm.insert(p, i);
        i = i + 1;
        assert(perm@.map_values(|x: usize| x as int) =~= s.insert(p as int, (i - 1) as int));
    }
    perm
}

/// Sorts `dataframe` on the condition's column, stably, in its direction;
/// with no condition the dataset is returned as it is.  Fails, naming the
/// column, when the dataset has no column of that name.
pub fn sort_dataframe(dataframe: &Dataset, condition: &Option<SortCondition>) -> (r: Result<
    Dataset,
    SortError,
>)
    requires
        dataframe@.wf(),
    ensures
        match condition {
            None => r is Ok && r->Ok_0@ == dataframe@,
            Some(cond) => match r {
                Ok(d) => dataframe@.has_column(cond.column_name@) && d@ == sorted_table(
                    dataframe@,
                    dataframe@.column_position(cond.column_name@),
                    cond.ascending,
                ) && d@.wf(),
                Err(SortError::ColumnNotFound(name)) => !dataframe@.has_column(cond.column_name@)
                    && name@ == cond.column_name@,
            },
        },
{
    match condition {
        None => Ok(dataframe.duplicate()),
        Some(cond) => match dataframe.column_index(cond.column_name.as_str()) {
            None => Err(SortError::ColumnNotFound(cond.column_name.clone())),
            Some(c) => {
                proof {
                    let t = dataframe@;
                    let p = t.column_position(cond.column_name@);
                    assert(0 <= p < t.names.len() && t.names[p] == cond.column_name@);
                    assert(t.columns[c as int].len() == t.height());
                }
                let order = stable_sort_order(dataframe.column(c), cond.ascending);
                proof {
                    lemma_stable_order(dataframe@.columns[c as int], cond.ascending);
                    assert forall|k: int| 0 <= k < order@.len() implies #[trigger] order@[k]
                        < dataframe@.height() by {
                        assert(order@.map_values(|x: usize| x as int)[k] == order@[k] as int);
                    }
                }
                let d = dataframe.pick(&order);
                Ok(d)
            },
        },
    }
}

} // verus!
