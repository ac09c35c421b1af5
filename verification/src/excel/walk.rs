//! What a walk over the sheet, row by row and cell by cell, collects: the
//! values that a function of the position gives, and the laws that relate
//! the result to the cells.
use vstd::prelude::*;

use crate::parser::schedule_parser::opt_seq;

verus! {

/// The values of `f` at the first `n` cells of row `r`, in order.
pub open spec fn walk_row<T>(f: spec_fn(int, int) -> Option<T>, r: int, n: int) -> Seq<T>
    decreases n,
{
    if n <= 0 {
        Seq::empty()
    } else {
        walk_row(f, r, n - 1) + opt_seq(f(r, n - 1))
    }
}

/// The values of `f` at every cell of the first `k` rows, row `r` having
/// `w(r)` cells, row by row and cell by cell.
pub open spec fn walk_rows<T>(f: spec_fn(int, int) -> Option<T>, w: spec_fn(int) -> int, k: int) -> Seq<T>
    decreases k,
{
    if k <= 0 {
        Seq::empty()
    } else {
        walk_rows(f, w, k - 1) + walk_row(f, k - 1, w(k - 1))
    }
}

/// The number of cells among the first `n` of row `r` where `f` gives a
/// value.
pub open spec fn count_row<T>(f: spec_fn(int, int) -> Option<T>, r: int, n: int) -> nat
    decreases n,
{
    if n <= 0 {
        0
    } else {
        count_row(f, r, n - 1) + if f(r, n - 1) is Some {
            1nat
        } else {
            0nat
        }
    }
}

/// The number of cells of the first `k` rows where `f` gives a value.
pub open spec fn count_rows<T>(f: spec_fn(int, int) -> Option<T>, w: spec_fn(int) -> int, k: int) -> nat
    decreases k,
{
    if k <= 0 {
        0
    } else {
        count_rows(f, w, k - 1) + count_row(f, k - 1, w(k - 1))
    }
}

/// `x` comes before `y` in `s`.
pub open spec fn comes_before<T>(s: Seq<T>, x: T, y: T) -> bool {
    exists|i: int, j: int| 0 <= i < j < s.len() && #[trigger] s[i] == x && #[trigger] s[j] == y
}

/// `f` gives `x` at some cell of the first `k` rows.
pub open spec fn found_somewhere<T>(f: spec_fn(int, int) -> Option<T>, w: spec_fn(int) -> int, k: int, x: T) -> bool {
    exists|r: int, c: int| 0 <= r < k && 0 <= c < w(r) && #[trigger] f(r, c) == Some(x)
}

proof fn lemma_walk_row_laws<T>(f: spec_fn(int, int) -> Option<T>, r: int, n: int)
    requires
        n >= 0,
    ensures
        walk_row(f, r, n).len() == count_row(f, r, n),
        forall|c: int| #![trigger f(r, c)] 0 <= c < n && f(r, c) is Some ==> walk_row(f, r, n).contains(f(r, c)->Some_0),
        forall|x: T| #[trigger] walk_row(f, r, n).contains(x) ==> exists|c: int| 0 <= c < n && #[trigger] f(r, c) == Some(x),
        forall|c1: int, c2: int|
            #![trigger f(r, c1), f(r, c2)]
            0 <= c1 < c2 < n && f(r, c1) is Some && f(r, c2) is Some ==> comes_before(walk_row(f, r, n), f(r, c1)->Some_0, f(r, c2)->Some_0),
    decreases n,
{
    if n > 0 {
        lemma_walk_row_laws(f, r, n - 1);
        let prev = walk_row(f, r, n - 1);
        let cur = walk_row(f, r, n);
        assert(cur == prev + opt_seq(f(r, n - 1)));
        assert forall|c: int| #![trigger f(r, c)] 0 <= c < n && f(r, c) is Some implies cur.contains(f(r, c)->Some_0) by {
            if c < n - 1 {
                let j = choose|j: int| 0 <= j < prev.len() && prev[j] == f(r, c)->Some_0;
                assert(cur[j] == prev[j]);
            } else {
                assert(cur[prev.len() as int] == f(r, c)->Some_0);
            }
        }
        assert forall|x: T| cur.contains(x) implies exists|c: int| 0 <= c < n && #[trigger] f(r, c) == Some(x) by {
            let j = choose|j: int| 0 <= j < cur.len() && cur[j] == x;
            if j < prev.len() {
                assert(prev[j] == x);
                assert(prev.contains(x));
            } else {
                assert(f(r, n - 1) == Some(x));
            }
        }
        assert forall|c1: int, c2: int|
            #![trigger f(r, c1), f(r, c2)]
            0 <= c1 < c2 < n && f(r, c1) is Some && f(r, c2) is Some implies comes_before(cur, f(r, c1)->Some_0, f(r, c2)->Some_0) by {
            if c2 < n - 1 {
                assert(comes_before(prev, f(r, c1)->Some_0, f(r, c2)->Some_0));
                let (i, j) = choose|i: int, j: int| 0 <= i < j < prev.len() && #[trigger] prev[i] == f(r, c1)->Some_0 && #[trigger] prev[j] == f(r, c2)->Some_0;
                assert(cur[i] == prev[i] && cur[j] == prev[j]);
            } else {
                assert(prev.contains(f(r, c1)->Some_0));
                let i = choose|i: int| 0 <= i < prev.len() && prev[i] == f(r, c1)->Some_0;
                assert(cur[i] == prev[i]);
                assert(cur[prev.len() as int] == f(r, c2)->Some_0);
            }
        }
    }
}

/// What a walk over the first `k` rows collects: one value for each cell
/// where `f` gives one (`count_rows` of them); every value that `f` gives at
/// a cell is collected; and every value collected is what `f` gives at some
/// cell.
pub proof fn lemma_walk_rows_laws<T>(f: spec_fn(int, int) -> Option<T>, w: spec_fn(int) -> int, k: int)
    requires
        k >= 0,
        forall|r: int| 0 <= r < k ==> #[trigger] w(r) >= 0,
    ensures
        walk_rows(f, w, k).len() == count_rows(f, w, k),
        forall|r: int, c: int|
            #![trigger f(r, c)]
            0 <= r < k && 0 <= c < w(r) && f(r, c) is Some ==> walk_rows(f, w, k).contains(f(r, c)->Some_0),
        forall|x: T| #[trigger] walk_rows(f, w, k).contains(x) ==> found_somewhere(f, w, k, x),
        forall|r1: int, c1: int, r2: int, c2: int|
            #![trigger f(r1, c1), f(r2, c2)]
            0 <= r1 < k && 0 <= c1 < w(r1) && 0 <= r2 < k && 0 <= c2 < w(r2) && (r1 < r2 || (r1 == r2 && c1 < c2))
                && f(r1, c1) is Some && f(r2, c2) is Some ==> comes_before(walk_rows(f, w, k), f(r1, c1)->Some_0, f(r2, c2)->Some_0),
    decreases k,
{
    if k > 0 {
        lemma_walk_rows_laws(f, w, k - 1);
        lemma_walk_row_laws(f, k - 1, w(k - 1));
        let prev = walk_rows(f, w, k - 1);
        let row = walk_row(f, k - 1, w(k - 1));
        let cur = walk_rows(f, w, k);
        assert(cur == prev + row);
        assert forall|r: int, c: int| #![trigger f(r, c)] 0 <= r < k && 0 <= c < w(r) && f(r, c) is Some implies cur.contains(
            f(r, c)->Some_0,
        ) by {
            if r < k - 1 {
                let j = choose|j: int| 0 <= j < prev.len() && prev[j] == f(r, c)->Some_0;
                assert(cur[j] == prev[j]);
            } else {
                assert(row.contains(f(r, c)->Some_0));
                let j = choose|j: int| 0 <= j < row.len() && row[j] == f(r, c)->Some_0;
                assert(cur[prev.len() + j] == row[j]);
            }
        }
        assert forall|x: T| cur.contains(x) implies found_somewhere(f, w, k, x) by {
            let j = choose|j: int| 0 <= j < cur.len() && cur[j] == x;
            if j < prev.len() {
                assert(prev[j] == x);
                assert(prev.contains(x));
                assert(found_somewhere(f, w, k - 1, x));
                let (r, c) = choose|r: int, c: int| 0 <= r < k - 1 && 0 <= c < w(r) && #[trigger] f(r, c) == Some(x);
                assert(0 <= r < k && 0 <= c < w(r) && f(r, c) == Some(x));
            } else {
                assert(row[j - prev.len()] == x);
                assert(row.contains(x));
                let c = choose|c: int| 0 <= c < w(k - 1) && #[trigger] f(k - 1, c) == Some(x);
                assert(0 <= k - 1 < k && 0 <= c < w(k - 1) && f(k - 1, c) == Some(x));
            }
        }
        assert forall|r1: int, c1: int, r2: int, c2: int|
            #![trigger f(r1, c1), f(r2, c2)]
            0 <= r1 < k && 0 <= c1 < w(r1) && 0 <= r2 < k && 0 <= c2 < w(r2) && (r1 < r2 || (r1 == r2 && c1 < c2))
                && f(r1, c1) is Some && f(r2, c2) is Some implies comes_before(cur, f(r1, c1)->Some_0, f(r2, c2)->Some_0) by {
            let x = f(r1, c1)->Some_0;
            let y = f(r2, c2)->Some_0;
            if r2 < k - 1 {
                assert(comes_before(prev, x, y));
                let (i, j) = choose|i: int, j: int| 0 <= i < j < prev.len() && #[trigger] prev[i] == x && #[trigger] prev[j] == y;
                assert(cur[i] == prev[i] && cur[j] == prev[j]);
            } else if r1 < k - 1 {
                assert(prev.contains(x));
                let i = choose|i: int| 0 <= i < prev.len() && prev[i] == x;
                assert(row.contains(y));
                let j = choose|j: int| 0 <= j < row.len() && row[j] == y;
                assert(cur[i] == prev[i]);
                assert(cur[prev.len() + j] == row[j]);
            } else {
                assert(comes_before(row, x, y));
                let (i, j) = choose|i: int, j: int| 0 <= i < j < row.len() && #[trigger] row[i] == x && #[trigger] row[j] == y;
                assert(cur[prev.len() + i] == row[i] && cur[prev.len() + j] == row[j]);
            }
        }
    }
}

} // verus!
