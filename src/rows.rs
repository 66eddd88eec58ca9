use vstd::prelude::*;

use crate::dataset::TableView;

verus! {

/// The rows below `n` that satisfy `p`, in increasing order.
pub open spec fn keep(n: nat, p: spec_fn(int) -> bool) -> Seq<int>
    decreases n,
{
    if n == 0 {
        Seq::empty()
    } else {
        let s = keep((n - 1) as nat, p);
        if p(n - 1) {
            s.push(n - 1)
        } else {
            s
        }
    }
}

/// `rows` lists, in increasing order, exactly the rows below `n` that satisfy `p`.
pub open spec fn selects_exactly(rows: Seq<int>, n: nat, p: spec_fn(int) -> bool) -> bool {
    &&& forall|j: int| 0 <= j < rows.len() ==> 0 <= #[trigger] rows[j] < n && p(rows[j])
    &&& forall|j: int, k: int| 0 <= j < k < rows.len() ==> rows[j] < rows[k]
    &&& forall|i: int| 0 <= i < n && p(i) ==> #[trigger] rows.contains(i)
}

pub proof fn lemma_keep_selects(n: nat, p: spec_fn(int) -> bool)
    ensures
        selects_exactly(keep(n, p), n, p),
        keep(n, p).len() <= n,
    decreases n,
{
    if n > 0 {
        lemma_keep_selects((n - 1) as nat, p);
        let s = keep((n - 1) as nat, p);
        let t = keep(n, p);
        assert forall|i: int| 0 <= i < n && p(i) implies #[trigger] t.contains(i) by {
            if i < n - 1 {
                assert(s.contains(i));
                let j = choose|j: int| 0 <= j < s.len() && s[j] == i;
                assert(t[j] == i);
            } else {
                assert(t[t.len() - 1] == i);
            }
        }
    }
}

/// Keeping every row keeps them all, in order.
pub proof fn lemma_keep_all(n: nat, p: spec_fn(int) -> bool)
    requires
        forall|i: int| 0 <= i < n ==> #[trigger] p(i),
    ensures
        keep(n, p) == Seq::new(n, |i: int| i),
    decreases n,
{
    if n > 0 {
        lemma_keep_all((n - 1) as nat, p);
        assert(keep(n, p) =~= Seq::new(n, |i: int| i));
    }
}

/// Two predicates that agree below `n` keep the same rows.
pub proof fn lemma_keep_ext(n: nat, p: spec_fn(int) -> bool, q: spec_fn(int) -> bool)
    requires
        forall|i: int| 0 <= i < n ==> #[trigger] p(i) == q(i),
    ensures
        keep(n, p) == keep(n, q),
    decreases n,
{
    if n > 0 {
        lemma_keep_ext((n - 1) as nat, p, q);
    }
}

/// Keeping by `p`, then keeping among those by `q`, keeps the rows satisfying both.
pub proof fn lemma_keep_compose(n: nat, p: spec_fn(int) -> bool, q: spec_fn(int) -> bool)
    ensures
        ({
            let k = keep(n, p);
            keep(k.len(), |j: int| q(k[j])).map_values(|j: int| k[j]) == keep(
                n,
                |i: int| p(i) && q(i),
            )
        }),
    decreases n,
{
    let k = keep(n, p);
    let both = |i: int| p(i) && q(i);
    if n > 0 {
        lemma_keep_compose((n - 1) as nat, p, q);
        let s = keep((n - 1) as nat, p);
        let inner_s = keep(s.len(), |j: int| q(s[j]));
        lemma_keep_selects((n - 1) as nat, p);
        lemma_keep_selects(s.len(), |j: int| q(s[j]));
        if p(n - 1) {
            assert(k == s.push(n - 1));
            lemma_keep_ext(s.len(), |j: int| q(k[j]), |j: int| q(s[j]));
            let inner_k = keep(k.len(), |j: int| q(k[j]));
            if q(n - 1) {
                assert(inner_k == inner_s.push(s.len() as int));
            } else {
                assert(inner_k == inner_s);
            }
            assert(inner_k.map_values(|j: int| k[j]) =~= keep(n, both));
        } else {
            assert(k == s);
            assert(keep(n, both) == keep((n - 1) as nat, both));
        }
    }
}

/// Picking rows `b` of the table made of rows `a` picks rows `b` of `a`.
pub proof fn lemma_pick_pick(t: TableView, a: Seq<int>, b: Seq<int>)
    requires
        forall|j: int| 0 <= j < b.len() ==> 0 <= #[trigger] b[j] < a.len(),
    ensures
        t.pick_rows(a).pick_rows(b) == t.pick_rows(b.map_values(|j: int| a[j])),
{
    let l = t.pick_rows(a).pick_rows(b);
    let r = t.pick_rows(b.map_values(|j: int| a[j]));
    assert forall|c: int| 0 <= c < l.columns.len() implies #[trigger] l.columns[c] == r.columns[c] by {
        assert(l.columns[c] =~= r.columns[c]);
    }
    assert(l.columns =~= r.columns);
}

/// Picking every row in order gives the table back.
pub proof fn lemma_pick_all(t: TableView)
    requires
        t.shape_ok(),
    ensures
        t.pick_rows(Seq::new(t.height(), |i: int| i)) == t,
{
    let p = t.pick_rows(Seq::new(t.height(), |i: int| i));
    assert forall|c: int| 0 <= c < t.columns.len() implies #[trigger] p.columns[c] == t.columns[c] by {
        assert(t.columns[c].len() == t.height());
        assert(p.columns[c] =~= t.columns[c]);
    }
    assert(p.columns =~= t.columns);
}

/// Picking rows of a well-formed table gives a well-formed table of that many rows,
/// whose cells are those of the picked rows.
pub proof fn lemma_pick_shape(t: TableView, rows: Seq<int>)
    requires
        t.wf(),
        forall|j: int| 0 <= j < rows.len() ==> 0 <= #[trigger] rows[j] < t.height(),
    ensures
        t.pick_rows(rows).wf(),
        t.columns.len() > 0 ==> t.pick_rows(rows).height() == rows.len(),
        forall|c: int, j: int|
            0 <= c < t.columns.len() && 0 <= j < rows.len() ==> #[trigger] t.pick_rows(
                rows,
            ).columns[c][j] == t.columns[c][rows[j]],
{
    let p = t.pick_rows(rows);
    assert forall|c: int| 0 <= c < p.columns.len() implies #[trigger] p.columns[c].len()
        == p.height() by {}
}

} // verus!
