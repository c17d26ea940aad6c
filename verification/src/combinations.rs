//! Lazy enumeration of the k-element index subsets of `{0, ..., n-1}` in
//! strictly increasing lexicographic order, with only the current index
//! tuple as state.  The cursor is advanced in place, so combination spaces
//! far too large to materialize can be walked one tuple at a time.

use vstd::prelude::*;
use vstd::arithmetic::mul::lemma_mul_inequality;
use vstd::arithmetic::power::{pow, lemma_pow_positive};

verus! {

/// The sequence is a combination over the universe `{0, ..., n-1}`: its
/// entries are strictly increasing indices below `n`.
pub open spec fn is_combination(c: Seq<usize>, n: int) -> bool {
    &&& forall|i: int| 0 <= i < c.len() ==> (#[trigger] c[i]) < n
    &&& forall|i: int, j: int| 0 <= i < j < c.len() ==> #[trigger] c[i] < #[trigger] c[j]
}

/// The lexicographically least combination of a given length: consecutive
/// indices starting at zero.
pub open spec fn first_combination(k: int) -> Seq<usize> {
    Seq::new(k as nat, |i: int| i as usize)
}

/// The lexicographically greatest combination of length `k` over `n`
/// indices: the final `k` consecutive indices.
pub open spec fn last_combination(n: int, k: int) -> Seq<usize> {
    Seq::new(k as nat, |i: int| (n - k + i) as usize)
}

/// Position `i` decides `a` strictly below `b` in lexicographic order: the
/// entries before `i` agree and `a` is smaller at `i`.
pub open spec fn lex_lt_at(a: Seq<usize>, b: Seq<usize>, i: int) -> bool {
    &&& 0 <= i < a.len()
    &&& i < b.len()
    &&& forall|m: int| 0 <= m < i ==> #[trigger] a[m] == b[m]
    &&& a[i] < b[i]
}

/// Strict lexicographic order on equal-length index tuples.
pub open spec fn lex_lt(a: Seq<usize>, b: Seq<usize>) -> bool {
    a.len() == b.len() && exists|i: int| #[trigger] lex_lt_at(a, b, i)
}

/// Lexicographic order, allowing equality.
pub open spec fn lex_le(a: Seq<usize>, b: Seq<usize>) -> bool {
    a == b || lex_lt(a, b)
}

/// Position `t` is the first at which the equal-length tuples differ.
pub open spec fn is_first_diff(a: Seq<usize>, b: Seq<usize>, t: int) -> bool {
    &&& 0 <= t < a.len()
    &&& t < b.len()
    &&& forall|m: int| 0 <= m < t ==> #[trigger] a[m] == b[m]
    &&& a[t] != b[t]
}

/// Two different equal-length tuples have a first position of difference.
proof fn lemma_first_diff(a: Seq<usize>, b: Seq<usize>)
    requires
        a.len() == b.len(),
        a != b,
    ensures
        exists|t: int| #[trigger] is_first_diff(a, b, t),
{
    lemma_first_diff_from(a, b, 0);
}

proof fn lemma_first_diff_from(a: Seq<usize>, b: Seq<usize>, j: int)
    requires
        a.len() == b.len(),
        0 <= j <= a.len(),
        forall|m: int| 0 <= m < j ==> #[trigger] a[m] == b[m],
        a != b,
    ensures
        exists|t: int| #[trigger] is_first_diff(a, b, t),
    decreases a.len() - j,
{
    if j == a.len() {
        assert(a =~= b);
        assert(false);
    } else if a[j] != b[j] {
        assert(is_first_diff(a, b, j));
    } else {
        lemma_first_diff_from(a, b, j + 1);
    }
}

/// Lexicographic order is total on equal-length tuples.
pub proof fn lemma_lex_trichotomy(a: Seq<usize>, b: Seq<usize>)
    requires
        a.len() == b.len(),
    ensures
        a == b || lex_lt(a, b) || lex_lt(b, a),
{
    if a != b {
        lemma_first_diff(a, b);
        let t = choose|t: int| is_first_diff(a, b, t);
        if a[t] < b[t] {
            assert(lex_lt_at(a, b, t));
        } else {
            assert(lex_lt_at(b, a, t));
        }
    }
}

/// Strict lexicographic order is asymmetric.
pub proof fn lemma_lex_asymmetry(a: Seq<usize>, b: Seq<usize>)
    requires
        lex_lt(a, b),
    ensures
        !lex_lt(b, a),
{
    if lex_lt(b, a) {
        let i = choose|i: int| lex_lt_at(a, b, i);
        let j = choose|j: int| lex_lt_at(b, a, j);
        if i < j {
            assert(b[i] == a[i]);
        } else if j < i {
            assert(a[j] == b[j]);
        }
    }
}

/// Entries of a combination grow at least as fast as their positions.
proof fn lemma_combination_gap(c: Seq<usize>, n: int, i: int, j: int)
    requires
        is_combination(c, n),
        0 <= i <= j < c.len(),
    ensures
        c[j] - c[i] >= j - i,
    decreases j - i,
{
    if i < j {
        lemma_combination_gap(c, n, i, j - 1);
        assert(c[j - 1] < c[j]);
    }
}

/// Each entry of a combination is boxed between its position and the
/// largest value that still leaves room for the entries after it.
proof fn lemma_combination_entry_range(c: Seq<usize>, n: int, i: int)
    requires
        is_combination(c, n),
        0 <= i < c.len(),
    ensures
        i <= c[i] <= n - c.len() + i,
{
    lemma_combination_gap(c, n, 0, i);
    lemma_combination_gap(c, n, i, c.len() - 1);
    assert(c[c.len() - 1] < n);
}

/// The consecutive indices starting at zero are lexicographically least
/// among combinations of their length.
pub proof fn lemma_first_combination_least(c: Seq<usize>, n: int)
    requires
        is_combination(c, n),
    ensures
        lex_le(first_combination(c.len() as int), c),
{
    let f = first_combination(c.len() as int);
    if c =~= f {
    } else {
        lemma_first_diff(f, c);
        let t = choose|t: int| is_first_diff(f, c, t);
        lemma_combination_entry_range(c, n, t);
        assert(lex_lt_at(f, c, t));
    }
}

/// The final consecutive indices are lexicographically greatest among
/// combinations of their length.
pub proof fn lemma_last_combination_greatest(c: Seq<usize>, n: int)
    requires
        is_combination(c, n),
        c.len() <= n,
        n <= usize::MAX,
    ensures
        lex_le(c, last_combination(n, c.len() as int)),
{
    let l = last_combination(n, c.len() as int);
    if c =~= l {
    } else {
        lemma_first_diff(c, l);
        let t = choose|t: int| is_first_diff(c, l, t);
        lemma_combination_entry_range(c, n, t);
        assert(l[t] == n - c.len() + t);
        assert(lex_lt_at(c, l, t));
    }
}

/// The tuple after `c` in lexicographic order, when position `pivot` is the
/// rightmost entry that can still grow: that entry moves up by one and the
/// entries after it become consecutive.
pub open spec fn combination_successor(c: Seq<usize>, pivot: int) -> Seq<usize> {
    Seq::new(
        c.len(),
        |i: int|
            if i < pivot {
                c[i]
            } else {
                (c[pivot] + 1 + (i - pivot)) as usize
            },
    )
}

/// The successor construction yields the immediate lexicographic successor:
/// a valid combination strictly above `c` with no valid combination between.
pub proof fn lemma_combination_successor(c: Seq<usize>, n: int, pivot: int)
    requires
        is_combination(c, n),
        c.len() <= n,
        n <= usize::MAX,
        0 <= pivot < c.len(),
        c[pivot] < n - c.len() + pivot,
        forall|i: int| pivot < i < c.len() ==> #[trigger] c[i] == n - c.len() + i,
    ensures
        is_combination(combination_successor(c, pivot), n),
        combination_successor(c, pivot).len() == c.len(),
        lex_lt(c, combination_successor(c, pivot)),
        forall|e: Seq<usize>|
            e.len() == c.len() && is_combination(e, n) && #[trigger] lex_lt(c, e) ==> lex_le(
                combination_successor(c, pivot),
                e,
            ),
{
    let k = c.len() as int;
    let d = combination_successor(c, pivot);
    assert forall|i: int| 0 <= i < k && i >= pivot implies d[i] == c[pivot] + 1 + (i - pivot)
        && d[i] < n by {
        assert(0 <= c[pivot] + 1 + (i - pivot) <= n - k + i <= n - 1);
    }
    assert forall|i0: int, j0: int| 0 <= i0 < j0 < k implies d[i0] < d[j0] by {
        if j0 < pivot {
        } else if i0 < pivot && pivot <= j0 {
            if i0 < pivot - 1 {
                assert(c[i0] < c[pivot - 1]);
            }
            if pivot >= 1 {
                assert(c[pivot - 1] < c[pivot]);
            }
            assert(c[i0] < c[pivot]);
        }
    }
    assert(is_combination(d, n));
    assert(lex_lt_at(c, d, pivot));
    assert forall|e: Seq<usize>|
        e.len() == c.len() && is_combination(e, n) && lex_lt(c, e) implies lex_le(d, e) by {
        let m = choose|m: int| lex_lt_at(c, e, m);
        if m > pivot {
            lemma_combination_entry_range(e, n, m);
            assert(false);
        } else if m < pivot {
            assert(lex_lt_at(d, e, m));
        } else {
            // The tuples agree before the pivot and e is at least d there.
            if e[pivot] > d[pivot] {
                assert(lex_lt_at(d, e, pivot));
            } else {
                assert(e[pivot] == d[pivot]);
                assert forall|i: int| pivot <= i < k implies e[i] >= d[i] by {
                    lemma_combination_gap(e, n, pivot, i);
                }
                if e =~= d {
                } else {
                    lemma_first_diff(d, e);
                    let t = choose|t: int| is_first_diff(d, e, t);
                    assert(t >= pivot);
                    assert(lex_lt_at(d, e, t));
                }
            }
        }
    }
}

/// The rank of an index tuple read as a base-`n` numeral, most significant
/// entry first.  Lexicographically larger combinations have larger ranks,
/// which bounds how often a cursor can advance.
pub open spec fn comb_val(c: Seq<usize>, n: int) -> int
    decreases c.len(),
{
    if c.len() == 0 {
        0
    } else {
        c[0] * pow(n, (c.len() - 1) as nat) + comb_val(c.drop_first(), n)
    }
}

/// Dropping the first entry of a combination leaves a combination.
proof fn lemma_drop_first_combination(c: Seq<usize>, n: int)
    requires
        is_combination(c, n),
        c.len() > 0,
    ensures
        is_combination(c.drop_first(), n),
{
    let t = c.drop_first();
    assert forall|i: int| 0 <= i < t.len() implies (#[trigger] t[i]) < n by {
        assert(c[i + 1] < n);
    }
    assert forall|i: int, j: int| 0 <= i < j < t.len() implies #[trigger] t[i] < #[trigger] t[j] by {
        assert(c[i + 1] < c[j + 1]);
    }
}

/// The rank of a combination lies below `n` to the power of its length.
proof fn lemma_comb_val_bounds(c: Seq<usize>, n: int)
    requires
        is_combination(c, n),
        n >= 0,
    ensures
        0 <= comb_val(c, n) < pow(n, c.len()),
    decreases c.len(),
{
    reveal(pow);
    if c.len() == 0 {
    } else {
        let t = c.drop_first();
        lemma_drop_first_combination(c, n);
        lemma_comb_val_bounds(t, n);
        let p = pow(n, (c.len() - 1) as nat);
        assert(c[0] < n);
        lemma_pow_positive(n, (c.len() - 1) as nat);
        lemma_mul_inequality(0, c[0] as int, p);
        lemma_mul_inequality(c[0] as int, n - 1, p);
        assert((n - 1) * p + p == n * p) by (nonlinear_arith);
        assert(pow(n, c.len()) == n * p);
    }
}

/// Ranks respect lexicographic order on equal-length combinations.
pub proof fn lemma_comb_val_monotone(a: Seq<usize>, b: Seq<usize>, n: int)
    requires
        is_combination(a, n),
        is_combination(b, n),
        a.len() == b.len(),
        lex_lt(a, b),
    ensures
        comb_val(a, n) < comb_val(b, n),
    decreases a.len(),
{
    reveal(pow);
    let i = choose|i: int| lex_lt_at(a, b, i);
    let at = a.drop_first();
    let bt = b.drop_first();
    lemma_drop_first_combination(a, n);
    lemma_drop_first_combination(b, n);
    let p = pow(n, (a.len() - 1) as nat);
    if i == 0 {
        lemma_comb_val_bounds(at, n);
        lemma_comb_val_bounds(bt, n);
        assert(b[0] < n);
        lemma_pow_positive(n, (a.len() - 1) as nat);
        lemma_mul_inequality(a[0] as int + 1, b[0] as int, p);
        assert(a[0] * p + p == (a[0] + 1) * p) by (nonlinear_arith);
    } else {
        assert forall|m: int| 0 <= m < i - 1 implies #[trigger] at[m] == bt[m] by {
            assert(a[m + 1] == b[m + 1]);
        }
        assert(at[i - 1] == a[i] && bt[i - 1] == b[i]);
        assert(lex_lt_at(at, bt, i - 1));
        lemma_comb_val_monotone(at, bt, n);
        assert(a[0] == b[0]);
    }
}

/// The final consecutive indices form a combination.
pub proof fn lemma_last_is_combination(n: int, k: int)
    requires
        0 <= k <= n,
        n <= usize::MAX,
    ensures
        is_combination(last_combination(n, k), n),
        last_combination(n, k).len() == k,
{
    let l = last_combination(n, k);
    assert forall|i: int| 0 <= i < l.len() implies (#[trigger] l[i]) < n by {
        assert(l[i] == (n - k + i) as usize);
        assert(0 <= n - k + i <= n - 1);
    }
    assert forall|i: int, j: int| 0 <= i < j < l.len() implies #[trigger] l[i] < #[trigger] l[j] by {
        assert(0 <= n - k + i <= n - 1 && 0 <= n - k + j <= n - 1);
    }
}

/// No combination ranks above the last one of its length.
pub proof fn lemma_comb_val_le_last(c: Seq<usize>, n: int)
    requires
        is_combination(c, n),
        c.len() <= n,
        n <= usize::MAX,
    ensures
        comb_val(c, n) <= comb_val(last_combination(n, c.len() as int), n),
{
    let l = last_combination(n, c.len() as int);
    lemma_last_is_combination(n, c.len() as int);
    lemma_last_combination_greatest(c, n);
    if c != l {
        lemma_comb_val_monotone(c, l, n);
    }
}

/// A pull-based cursor over all `size`-element index combinations of a
/// universe of `universe` indices, visiting them in increasing
/// lexicographic order while holding only the current tuple.
pub struct CombinationEnumerator {
    /// The number of indices to draw from.
    pub universe: usize,
    /// The current combination: strictly increasing indices below
    /// `universe`.
    pub indices: Vec<usize>,
}

impl CombinationEnumerator {
    /// The cursor's tuple is a combination over its universe.
    pub open spec fn wf(self) -> bool {
        &&& is_combination(self.indices@, self.universe as int)
        &&& self.indices@.len() <= self.universe
    }

    /// A fresh cursor positioned on the lexicographically least
    /// combination.
    pub fn new(universe: usize, size: usize) -> (r: Self)
        requires
            size <= universe,
        ensures
            r.wf(),
            r.universe == universe,
            r.indices@.len() == size,
            r.indices@ == first_combination(size as int),
    {
        let mut indices: Vec<usize> = Vec::new();
        let mut i: usize = 0;
        while i < size
            invariant
                i <= size,
                indices@.len() == i,
                forall|m: int| 0 <= m < i ==> #[trigger] indices@[m] == m,
            decreases size - i,
        {
            indices.push(i);
            i += 1;
        }
        proof {
            assert(indices@ =~= first_combination(size as int));
        }
        CombinationEnumerator { universe, indices }
    }

    /// Move to the immediate lexicographic successor of the current
    /// combination.  Returns false, leaving the tuple in place, when the
    /// current combination is already the last one.
    #[verifier::loop_isolation(false)]
    pub fn advance(&mut self) -> (more: bool)
        requires
            old(self).wf(),
        ensures
            final(self).wf(),
            final(self).universe == old(self).universe,
            final(self).indices@.len() == old(self).indices@.len(),
            more ==> lex_lt(old(self).indices@, final(self).indices@) && (forall|e: Seq<usize>|
                e.len() == old(self).indices@.len() && is_combination(
                    e,
                    old(self).universe as int,
                ) && #[trigger] lex_lt(old(self).indices@, e) ==> lex_le(
                    final(self).indices@,
                    e,
                )),
            !more ==> final(self).indices@ == old(self).indices@ && (forall|e: Seq<usize>|
                e.len() == old(self).indices@.len() && #[trigger] is_combination(
                    e,
                    old(self).universe as int,
                ) ==> lex_le(e, final(self).indices@)),
    {
        let k = self.indices.len();
        let n = self.universe;
        let ghost c = self.indices@;
        // Scan from the right for the rightmost entry below its maximum.
        let mut j: usize = k;
        while j > 0 && self.indices[j - 1] == n - k + (j - 1)
            invariant
                j <= k,
                k == self.indices@.len(),
                n == self.universe,
                self.wf(),
                self.indices@ == c,
                forall|i: int| j <= i < k ==> #[trigger] c[i] == n - k + i,
            decreases j,
        {
            j -= 1;
        }
        if j == 0 {
            // Every entry is maximal: the tuple is the last combination.
            proof {
                assert(c =~= last_combination(n as int, k as int));
                assert forall|e: Seq<usize>|
                    e.len() == c.len() && is_combination(e, n as int) implies lex_le(e, c) by {
                    lemma_last_combination_greatest(e, n as int);
                }
            }
            return false;
        }
        let pivot = j - 1;
        proof {
            lemma_combination_entry_range(c, n as int, pivot as int);
            assert(c[pivot as int] < n - k + pivot);
            lemma_combination_successor(c, n as int, pivot as int);
        }
        let base = self.indices[pivot] + 1;
        let mut i: usize = pivot;
        while i < k
            invariant
                pivot <= i <= k,
                k == self.indices@.len(),
                n == self.universe,
                base == c[pivot as int] + 1,
                pivot < k,
                forall|m: int| 0 <= m < pivot ==> #[trigger] self.indices@[m] == c[m],
                forall|m: int| pivot <= m < i ==> #[trigger] self.indices@[m] == base + (m
                    - pivot),
                forall|m: int| i <= m < k ==> #[trigger] self.indices@[m] == c[m],
                base + (k - 1 - pivot) <= n - 1,
            decreases k - i,
        {
            self.indices.set(i, base + (i - pivot));
            i += 1;
        }
        proof {
            assert(self.indices@ =~= combination_successor(c, pivot as int));
        }
        true
    }

    /// The points of `grid` selected by the current combination, in order.
    pub fn current_points(&self, grid: &Vec<crate::geometry::Point>) -> (r: Vec<
        crate::geometry::Point,
    >)
        requires
            self.wf(),
            grid@.len() == self.universe,
        ensures
            r@.len() == self.indices@.len(),
            forall|m: int| 0 <= m < r@.len() ==> #[trigger] r@[m] == grid@[self.indices@[m] as int],
    {
        let mut r: Vec<crate::geometry::Point> = Vec::new();
        let mut i: usize = 0;
        while i < self.indices.len()
            invariant
                self.wf(),
                grid@.len() == self.universe,
                i <= self.indices@.len(),
                r@.len() == i,
                forall|m: int| 0 <= m < i ==> #[trigger] r@[m] == grid@[self.indices@[m] as int],
            decreases self.indices@.len() - i,
        {
            let idx = self.indices[i];
            r.push(grid[idx]);
            i += 1;
        }
        r
    }
}

} // verus!
