//! Subset feasibility: whether an ordered sequence of points contains some
//! four points that lie on a common circle (or, by policy, a common line).

use vstd::prelude::*;
use crate::geometry::{Point, in_bounds, spec_concyclic4, four_points_are_concyclic};

verus! {

/// Every point of the sequence lies within the coordinate bounds.
pub open spec fn all_in_bounds(s: Seq<Point>) -> bool {
    forall|i: int| 0 <= i < s.len() ==> in_bounds(#[trigger] s[i])
}

/// Some four positions of the sequence, in increasing order, hold a
/// concyclic quadruple.  The predicate is symmetric in its four points, so
/// restricting to increasing positions loses nothing.
pub open spec fn spec_has_concyclic_quad(s: Seq<Point>) -> bool {
    exists|i: int, j: int, k: int, l: int|
        0 <= i < j && j < k && k < l && l < s.len() && #[trigger] spec_concyclic4(
            s[i],
            s[j],
            s[k],
            s[l],
        )
}

/// A sequence of fewer than four points has no four-point combination at
/// all, so it never contains a concyclic quadruple.
pub proof fn lemma_short_seq_has_no_quad(s: Seq<Point>)
    requires
        s.len() < 4,
    ensures
        !spec_has_concyclic_quad(s),
{
}

/// Whether any four points of `subset` are concyclic, checking every
/// four-element combination.
pub fn has_any_4_concyclic(subset: &[Point]) -> (r: bool)
    requires
        all_in_bounds(subset@),
    ensures
        r == spec_has_concyclic_quad(subset@),
{
    let n = subset.len();
    let mut i: usize = 0;
    while i < n
        invariant
            i <= n,
            n == subset@.len(),
            all_in_bounds(subset@),
            forall|i0: int, j0: int, k0: int, l0: int|
                0 <= i0 < j0 && j0 < k0 && k0 < l0 && l0 < n && i0 < i ==> !spec_concyclic4(
                    subset@[i0],
                    subset@[j0],
                    subset@[k0],
                    subset@[l0],
                ),
        decreases n - i,
    {
        let mut j: usize = i + 1;
        while j < n
            invariant
                i < j <= n || (j == i + 1 && j >= n),
                i < n,
                n == subset@.len(),
                all_in_bounds(subset@),
                forall|j0: int, k0: int, l0: int|
                    i < j0 && j0 < k0 && k0 < l0 && l0 < n && j0 < j ==> !spec_concyclic4(
                        subset@[i as int],
                        subset@[j0],
                        subset@[k0],
                        subset@[l0],
                    ),
            decreases n - j,
        {
            let mut k: usize = j + 1;
            while k < n
                invariant
                    j < k <= n || (k == j + 1 && k >= n),
                    i < j < n,
                    n == subset@.len(),
                    all_in_bounds(subset@),
                    forall|k0: int, l0: int|
                        j < k0 && k0 < l0 && l0 < n && k0 < k ==> !spec_concyclic4(
                            subset@[i as int],
                            subset@[j as int],
                            subset@[k0],
                            subset@[l0],
                        ),
                decreases n - k,
            {
                let mut l: usize = k + 1;
                while l < n
                    invariant
                        k < l <= n || (l == k + 1 && l >= n),
                        i < j && j < k && k < n,
                        n == subset@.len(),
                        all_in_bounds(subset@),
                        forall|l0: int|
                            k < l0 && l0 < n && l0 < l ==> !spec_concyclic4(
                                subset@[i as int],
                                subset@[j as int],
                                subset@[k as int],
                                subset@[l0],
                            ),
                    decreases n - l,
                {
                    if four_points_are_concyclic(&subset[i], &subset[j], &subset[k], &subset[l]) {
                        return true;
                    }
                    l += 1;
                }
                k += 1;
            }
            j += 1;
        }
        i += 1;
    }
    false
}

} // verus!
