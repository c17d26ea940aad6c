//! The search driver: builds the grid, scans the size-n index combinations
//! in lexicographic order for one whose points contain no concyclic
//! quadruple, and walks the subset sizes upward, halting for good at the
//! first size with no qualifying subset.

use vstd::prelude::*;
use crate::combinations::{
    CombinationEnumerator, comb_val, first_combination, is_combination, last_combination,
    lemma_comb_val_le_last, lemma_comb_val_monotone, lemma_first_combination_least,
    lemma_last_is_combination, lemma_lex_asymmetry, lemma_lex_trichotomy, lex_le, lex_lt,
};
use crate::feasibility::{all_in_bounds, has_any_4_concyclic, spec_has_concyclic_quad};
use crate::geometry::Point;

verus! {

/// The grid side length of the reference search: coordinates run from 0 to
/// this value inclusive.
pub const GRID_SIDE: usize = 6;

/// The smallest subset size the reference search tries.
pub const N_MIN: usize = 13;

/// The largest subset size the reference search tries.
pub const N_MAX: usize = 25;

/// How many examined combinations lie between two progress reports.
pub const PROGRESS_INTERVAL: u64 = 10_000_000;

/// The points of `grid` selected by the index tuple `c`, in order.
pub open spec fn select_points(grid: Seq<Point>, c: Seq<usize>) -> Seq<Point> {
    Seq::new(c.len(), |i: int| grid[c[i] as int])
}

/// The subset selected by `c` qualifies: none of its four-point
/// combinations is concyclic.
pub open spec fn subset_qualifies(grid: Seq<Point>, c: Seq<usize>) -> bool {
    !spec_has_concyclic_quad(select_points(grid, c))
}

/// Every combination lexicographically below `c` fails to qualify.
pub open spec fn none_qualify_below(grid: Seq<Point>, c: Seq<usize>) -> bool {
    forall|e: Seq<usize>|
        is_combination(e, grid.len() as int) && #[trigger] lex_lt(e, c) ==> !subset_qualifies(
            grid,
            e,
        )
}

/// An element-for-element copy of an index vector.
pub fn copy_indices(v: &Vec<usize>) -> (r: Vec<usize>)
    ensures
        r@ == v@,
{
    let mut r: Vec<usize> = Vec::new();
    let mut i: usize = 0;
    while i < v.len()
        invariant
            i <= v@.len(),
            r@.len() == i,
            forall|m: int| 0 <= m < i ==> #[trigger] r@[m] == v@[m],
        decreases v@.len() - i,
    {
        r.push(v[i]);
        i += 1;
    }
    proof {
        assert(r@ =~= v@);
    }
    r
}

/// An element-for-element copy of a point vector.
pub fn copy_points(v: &Vec<Point>) -> (r: Vec<Point>)
    ensures
        r@ == v@,
{
    let mut r: Vec<Point> = Vec::new();
    let mut i: usize = 0;
    while i < v.len()
        invariant
            i <= v@.len(),
            r@.len() == i,
            forall|m: int| 0 <= m < i ==> #[trigger] r@[m] == v@[m],
        decreases v@.len() - i,
    {
        r.push(v[i]);
        i += 1;
    }
    proof {
        assert(r@ =~= v@);
    }
    r
}

/// The points of `grid` at the positions named by `c`.
pub fn points_at_indices(grid: &Vec<Point>, c: &Vec<usize>) -> (r: Vec<Point>)
    requires
        forall|i: int| 0 <= i < c@.len() ==> (#[trigger] c@[i]) < grid@.len(),
    ensures
        r@ == select_points(grid@, c@),
{
    let mut r: Vec<Point> = Vec::new();
    let mut i: usize = 0;
    while i < c.len()
        invariant
            i <= c@.len(),
            r@.len() == i,
            forall|m: int| 0 <= m < c@.len() ==> (#[trigger] c@[m]) < grid@.len(),
            forall|m: int| 0 <= m < i ==> #[trigger] r@[m] == grid@[c@[m] as int],
        decreases c@.len() - i,
    {
        r.push(grid[c[i]]);
        i += 1;
    }
    proof {
        assert(r@ =~= select_points(grid@, c@));
    }
    r
}

/// Rows that come before row `a` occupy index space strictly below
/// `a * (side + 1)`.
proof fn lemma_grid_index_bound(a0: int, b0: int, a: int, side: int) by (nonlinear_arith)
    requires
        0 <= a0 < a,
        0 <= b0 <= side,
        side >= 0,
    ensures
        0 <= a0 * (side + 1) + b0 < a * (side + 1),
{
}

/// The full grid of points with both coordinates between 0 and `side`
/// inclusive, in x-major, y-minor order: the point `(a, b)` sits at index
/// `a * (side + 1) + b`.
#[verifier::loop_isolation(false)]
pub fn make_grid(side: usize) -> (r: Vec<Point>)
    requires
        side <= 10_000,
    ensures
        r@.len() == (side + 1) * (side + 1),
        forall|a: int, b: int|
            0 <= a <= side && 0 <= b <= side ==> #[trigger] r@[a * (side + 1) + b] == (Point {
                x: a as i32,
                y: b as i32,
            }),
        all_in_bounds(r@),
{
    let mut r: Vec<Point> = Vec::new();
    let mut a: usize = 0;
    while a <= side
        invariant
            a <= side + 1,
            r@.len() == a * (side + 1),
            forall|a0: int, b0: int|
                0 <= a0 < a && 0 <= b0 <= side ==> #[trigger] r@[a0 * (side + 1) + b0] == (Point {
                    x: a0 as i32,
                    y: b0 as i32,
                }),
            all_in_bounds(r@),
        decreases side + 1 - a,
    {
        let mut b: usize = 0;
        while b <= side
            invariant
                a <= side,
                b <= side + 1,
                r@.len() == a * (side + 1) + b,
                forall|a0: int, b0: int|
                    0 <= a0 < a && 0 <= b0 <= side ==> #[trigger] r@[a0 * (side + 1) + b0]
                        == (Point { x: a0 as i32, y: b0 as i32 }),
                forall|b0: int|
                    0 <= b0 < b ==> #[trigger] r@[a * (side + 1) + b0] == (Point {
                        x: a as i32,
                        y: b0 as i32,
                    }),
                all_in_bounds(r@),
            decreases side + 1 - b,
        {
            proof {
                assert(a * (side + 1) + b + 1 <= (side + 1) * (side + 1)) by (nonlinear_arith)
                    requires
                        a <= side,
                        b <= side,
                ;
            }
            r.push(Point { x: a as i32, y: b as i32 });
            b += 1;
            proof {
                assert forall|a0: int, b0: int|
                    0 <= a0 < a && 0 <= b0 <= side implies #[trigger] r@[a0 * (side + 1) + b0]
                    == (Point { x: a0 as i32, y: b0 as i32 }) by {
                    lemma_grid_index_bound(a0, b0, a as int, side as int);
                }
            }
        }
        proof {
            assert(a * (side + 1) + (side + 1) == (a + 1) * (side + 1)) by (nonlinear_arith);
            assert forall|a0: int, b0: int|
                0 <= a0 < a + 1 && 0 <= b0 <= side implies #[trigger] r@[a0 * (side + 1) + b0]
                == (Point { x: a0 as i32, y: b0 as i32 }) by {
                if a0 < a {
                    lemma_grid_index_bound(a0, b0, a as int, side as int);
                } else {
                    assert(a0 == a);
                }
            }
        }
        a += 1;
    }
    proof {
        assert(r@.len() == (side + 1) * (side + 1));
    }
    r
}

/// The outcome of examining one candidate subset.
pub enum SearchStep {
    /// The examined combination qualifies; the per-size search is over.
    Found(Vec<usize>),
    /// Every combination has been examined and none qualifies.
    Exhausted,
    /// The examined combination does not qualify; the cursor moved on.
    Pending,
}

/// The scan of one subset size: a cursor over the combinations, the count
/// of candidates examined so far, and whether the scan has ended.
pub struct SubsetSearch {
    /// The grid the indices select from.
    pub grid: Vec<Point>,
    /// The cursor over index combinations, in lexicographic order.
    pub cursor: CombinationEnumerator,
    /// How many candidate subsets have been examined, saturating.
    pub examined: u64,
    /// Whether a qualifying subset was returned or the space was exhausted.
    pub finished: bool,
}

impl SubsetSearch {
    /// The subset size being scanned.
    pub open spec fn size(self) -> int {
        self.cursor.indices@.len() as int
    }

    /// The scan's invariant: a well-formed cursor over the grid, with every
    /// combination below the cursor already ruled out.
    pub open spec fn wf(self) -> bool {
        &&& all_in_bounds(self.grid@)
        &&& self.cursor.wf()
        &&& self.cursor.universe as int == self.grid@.len() as int
        &&& (!self.finished ==> none_qualify_below(self.grid@, self.cursor.indices@))
    }

    /// A fresh scan positioned on the lexicographically least combination.
    pub fn new(grid: Vec<Point>, size: usize) -> (r: Self)
        requires
            all_in_bounds(grid@),
            size <= grid@.len(),
        ensures
            r.wf(),
            !r.finished,
            r.grid@ == grid@,
            r.size() == size as int,
            r.examined == 0,
            r.cursor.indices@ == first_combination(size as int),
    {
        let universe = grid.len();
        let cursor = CombinationEnumerator::new(universe, size);
        proof {
            assert forall|e: Seq<usize>|
                is_combination(e, grid@.len() as int) && #[trigger] lex_lt(
                    e,
                    cursor.indices@,
                ) implies !subset_qualifies(grid@, e) by {
                lemma_first_combination_least(e, grid@.len() as int);
                assert(first_combination(e.len() as int) =~= cursor.indices@);
                if first_combination(e.len() as int) == e {
                    lemma_lex_asymmetry(e, e);
                } else {
                    lemma_lex_asymmetry(first_combination(e.len() as int), e);
                }
            }
        }
        SubsetSearch { grid, cursor, examined: 0, finished: false }
    }

    /// Examine the current candidate subset.  Reports it when it qualifies,
    /// reports exhaustion after the last candidate fails, and otherwise
    /// moves the cursor to the next combination.
    pub fn step(&mut self) -> (r: SearchStep)
        requires
            old(self).wf(),
            !old(self).finished,
        ensures
            final(self).wf(),
            final(self).grid@ == old(self).grid@,
            final(self).size() == old(self).size(),
            final(self).examined == if old(self).examined < u64::MAX {
                (old(self).examined + 1) as u64
            } else {
                old(self).examined
            },
            match r {
                SearchStep::Found(c) => {
                    &&& final(self).finished
                    &&& c@ == old(self).cursor.indices@
                    &&& is_combination(c@, old(self).grid@.len() as int)
                    &&& c@.len() == old(self).size()
                    &&& subset_qualifies(old(self).grid@, c@)
                    &&& none_qualify_below(old(self).grid@, c@)
                },
                SearchStep::Exhausted => {
                    &&& final(self).finished
                    &&& forall|e: Seq<usize>|
                        e.len() == old(self).size() && #[trigger] is_combination(
                            e,
                            old(self).grid@.len() as int,
                        ) ==> !subset_qualifies(old(self).grid@, e)
                },
                SearchStep::Pending => {
                    &&& !final(self).finished
                    &&& !subset_qualifies(old(self).grid@, old(self).cursor.indices@)
                    &&& lex_lt(old(self).cursor.indices@, final(self).cursor.indices@)
                },
            },
    {
        let pts = self.cursor.current_points(&self.grid);
        proof {
            assert(pts@ =~= select_points(self.grid@, self.cursor.indices@));
            assert forall|i: int| 0 <= i < pts@.len() implies crate::geometry::in_bounds(
                #[trigger] pts@[i],
            ) by {
                assert(self.cursor.indices@[i] < self.grid@.len());
            }
        }
        if self.examined < u64::MAX {
            self.examined = self.examined + 1;
        }
        if !has_any_4_concyclic(pts.as_slice()) {
            self.finished = true;
            let c = copy_indices(&self.cursor.indices);
            return SearchStep::Found(c);
        }
        let ghost prev = self.cursor.indices@;
        let more = self.cursor.advance();
        if !more {
            self.finished = true;
            proof {
                assert forall|e: Seq<usize>|
                    e.len() == prev.len() && #[trigger] is_combination(
                        e,
                        self.grid@.len() as int,
                    ) implies !subset_qualifies(self.grid@, e) by {
                    assert(lex_le(e, prev));
                    if e != prev {
                        assert(lex_lt(e, prev));
                    }
                }
            }
            return SearchStep::Exhausted;
        }
        proof {
            assert forall|e: Seq<usize>|
                is_combination(e, self.grid@.len() as int) && #[trigger] lex_lt(
                    e,
                    self.cursor.indices@,
                ) implies !subset_qualifies(self.grid@, e) by {
                lemma_lex_trichotomy(e, prev);
                if e == prev {
                } else if lex_lt(e, prev) {
                } else {
                    assert(lex_lt(prev, e));
                    assert(lex_le(self.cursor.indices@, e));
                    if self.cursor.indices@ == e {
                        lemma_lex_asymmetry(e, e);
                    } else {
                        lemma_lex_asymmetry(e, self.cursor.indices@);
                    }
                    assert(false);
                }
            }
        }
        SearchStep::Pending
    }
}

/// The lexicographically first size-`size` index combination whose points
/// contain no concyclic quadruple, or None exactly when no combination of
/// that size qualifies.
#[verifier::loop_isolation(false)]
pub fn find_first_qualifying(grid: &Vec<Point>, size: usize) -> (r: Option<Vec<usize>>)
    requires
        all_in_bounds(grid@),
        size <= grid@.len(),
    ensures
        match r {
            Some(c) => {
                &&& is_combination(c@, grid@.len() as int)
                &&& c@.len() == size
                &&& subset_qualifies(grid@, c@)
                &&& none_qualify_below(grid@, c@)
            },
            None => forall|e: Seq<usize>|
                e.len() == size && #[trigger] is_combination(e, grid@.len() as int)
                    ==> !subset_qualifies(grid@, e),
        },
{
    let ghost n = grid@.len() as int;
    let mut search = SubsetSearch::new(copy_points(grid), size);
    proof {
        lemma_last_is_combination(n, size as int);
        lemma_comb_val_le_last(search.cursor.indices@, n);
    }
    loop
        invariant
            search.wf(),
            !search.finished,
            search.grid@ == grid@,
            search.size() == size as int,
        decreases comb_val(last_combination(n, size as int), n) - comb_val(
            search.cursor.indices@,
            n,
        ),
    {
        let ghost prev = search.cursor.indices@;
        match search.step() {
            SearchStep::Found(c) => {
                return Some(c);
            },
            SearchStep::Exhausted => {
                return None;
            },
            SearchStep::Pending => {
                proof {
                    lemma_comb_val_monotone(prev, search.cursor.indices@, n);
                    lemma_comb_val_le_last(search.cursor.indices@, n);
                }
            },
        }
    }
}

/// What one driver step observed.
pub enum SearchEvent {
    /// One more candidate subset was examined without a decision.
    Examined,
    /// The subset size, index tuple and points of the first qualifying
    /// subset for the size just finished; the driver moves to the next
    /// size, or halts if this was the largest.
    Found(usize, Vec<usize>, Vec<Point>),
    /// The size just finished has no qualifying subset; the driver halts.
    NotFound(usize),
    /// The driver had already halted; nothing happened.
    Idle,
}

/// The whole search: scans subset sizes in ascending order, stopping for
/// good at the first size with no qualifying subset (or after the largest
/// size).
pub struct SearchDriver {
    /// The grid being searched.
    pub grid: Vec<Point>,
    /// The largest subset size to try.
    pub n_max: usize,
    /// The scan of the current subset size.
    pub search: SubsetSearch,
    /// Whether the whole search has ended.
    pub halted: bool,
}

impl SearchDriver {
    /// The driver's invariant.
    pub open spec fn wf(self) -> bool {
        &&& all_in_bounds(self.grid@)
        &&& self.n_max <= self.grid@.len()
        &&& self.search.wf()
        &&& self.search.grid@ == self.grid@
        &&& (!self.halted ==> !self.search.finished && self.search.size() <= self.n_max)
    }

    /// A driver that will scan sizes `n_min` through `n_max` over `grid`.
    pub fn new(grid: Vec<Point>, n_min: usize, n_max: usize) -> (r: Self)
        requires
            all_in_bounds(grid@),
            n_min <= n_max,
            n_max <= grid@.len(),
        ensures
            r.wf(),
            !r.halted,
            r.n_max == n_max,
            r.grid@ == grid@,
            r.search.size() == n_min as int,
            r.search.examined == 0,
    {
        let search = SubsetSearch::new(copy_points(&grid), n_min);
        SearchDriver { grid, n_max, search, halted: false }
    }

    /// The subset size currently being scanned.
    pub fn current_size(&self) -> (r: usize)
        ensures
            r as int == self.search.size(),
    {
        self.search.cursor.indices.len()
    }

    /// How many candidates the current size's scan has examined.
    pub fn examined(&self) -> (r: u64)
        ensures
            r == self.search.examined,
    {
        self.search.examined
    }

    /// Whether the whole search has ended.
    pub fn is_halted(&self) -> (r: bool)
        ensures
            r == self.halted,
    {
        self.halted
    }

    /// Advance the search by one examined candidate, reporting what
    /// happened.  A found subset is the lexicographically first qualifying
    /// one of its size; a missing size halts the search for good.
    pub fn step(&mut self) -> (ev: SearchEvent)
        requires
            old(self).wf(),
        ensures
            final(self).wf(),
            final(self).grid@ == old(self).grid@,
            final(self).n_max == old(self).n_max,
            match ev {
                SearchEvent::Idle => old(self).halted && final(self).halted,
                SearchEvent::Examined => {
                    &&& !old(self).halted
                    &&& !final(self).halted
                    &&& final(self).search.size() == old(self).search.size()
                    &&& !subset_qualifies(old(self).grid@, old(self).search.cursor.indices@)
                    &&& lex_lt(old(self).search.cursor.indices@, final(self).search.cursor.indices@)
                    &&& final(self).search.examined == if old(self).search.examined < u64::MAX {
                        (old(self).search.examined + 1) as u64
                    } else {
                        old(self).search.examined
                    }
                },
                SearchEvent::Found(sz, c, pts) => {
                    &&& !old(self).halted
                    &&& sz as int == old(self).search.size()
                    &&& is_combination(c@, old(self).grid@.len() as int)
                    &&& c@.len() == sz
                    &&& subset_qualifies(old(self).grid@, c@)
                    &&& none_qualify_below(old(self).grid@, c@)
                    &&& pts@ == select_points(old(self).grid@, c@)
                    &&& (sz < old(self).n_max ==> !final(self).halted && final(self).search.size()
                        == sz + 1)
                    &&& (sz == old(self).n_max ==> final(self).halted)
                },
                SearchEvent::NotFound(sz) => {
                    &&& !old(self).halted
                    &&& sz as int == old(self).search.size()
                    &&& (forall|e: Seq<usize>|
                        e.len() == sz && #[trigger] is_combination(e, old(self).grid@.len() as int)
                            ==> !subset_qualifies(old(self).grid@, e))
                    &&& final(self).halted
                },
            },
    {
        if self.halted {
            return SearchEvent::Idle;
        }
        let sz = self.search.cursor.indices.len();
        match self.search.step() {
            SearchStep::Pending => SearchEvent::Examined,
            SearchStep::Found(c) => {
                proof {
                    assert forall|i: int| 0 <= i < c@.len() implies (#[trigger] c@[i])
                        < self.grid@.len() by {}
                }
                let pts = points_at_indices(&self.grid, &c);
                if sz < self.n_max {
                    self.search = SubsetSearch::new(copy_points(&self.grid), sz + 1);
                } else {
                    self.halted = true;
                }
                SearchEvent::Found(sz, c, pts)
            },
            SearchStep::Exhausted => {
                self.halted = true;
                SearchEvent::NotFound(sz)
            },
        }
    }
}

} // verus!
