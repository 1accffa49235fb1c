//! The board: which cells are filled, and what a block may do there.

use crate::block::Block;
use crate::point::{row_major, Point};
use crate::sorting::{lemma_row_major_unique, sort_row_major};
use vstd::prelude::*;
use vstd::seq_lib::{seq_to_set_is_finite, to_multiset_build, to_multiset_contains};
use vstd::set_lib::{lemma_int_range, lemma_subset_equality, set_int_range};

verus! {

/// A grid of `x_dim` columns and `y_dim` rows together with its filled cells.
///
/// Row 0 is the top row. `filled` lists the occupied cells; a board that came
/// about through [`Board::new`], [`Board::place_block`] and
/// [`Board::clear_board`] alone lists none of them twice.
#[derive(Debug)]
pub struct Board {
    pub x_dim: i32,
    pub y_dim: i32,
    pub filled: Vec<Point>,
}

/// How often `p` is listed once `cells` have been placed among `filled`: as
/// often as before where `filled` lists it already, once where only `cells`
/// bring it, and not at all otherwise.
pub open spec fn placed_count(filled: Seq<Point>, cells: Seq<Point>, p: Point) -> nat {
    if filled.contains(p) {
        filled.to_multiset().count(p)
    } else if cells.contains(p) {
        1
    } else {
        0
    }
}

/// The predicate "lies in row `y`".
pub open spec fn in_row(y: int) -> spec_fn(Point) -> bool {
    |p: Point| p.y == y
}

/// Filtering a sequence without repeats leaves a sequence without repeats.
proof fn lemma_filter_no_duplicates(s: Seq<Point>, keep: spec_fn(Point) -> bool)
    requires
        s.no_duplicates(),
    ensures
        s.filter(keep).no_duplicates(),
    decreases s.len(),
{
    reveal(Seq::filter);
    if s.len() > 0 {
        let front = s.drop_last();
        lemma_filter_no_duplicates(front, keep);
        if keep(s.last()) {
            let kept = front.filter(keep);
            assert forall|i: int| 0 <= i < kept.len() implies kept[i] != s.last() by {
                assert(kept.contains(kept[i]));
                front.lemma_filter_contains_rev(keep, kept[i]);
                let j = choose|j: int| 0 <= j < front.len() && front[j] == kept[i];
                assert(s[j] == kept[i]);
            }
        }
    }
}

impl Board {
    /// How many entries of `filled` lie in row `y`.
    pub open spec fn row_count(self, y: int) -> nat {
        self.filled@.filter(in_row(y)).len()
    }

    /// Row `y` is a row of the board and holds as many entries as the board
    /// has columns.
    pub open spec fn is_complete(self, y: int) -> bool {
        0 <= y < self.y_dim && self.row_count(y) == self.x_dim
    }

    /// The number of complete rows with an index smaller than `y`.
    pub open spec fn complete_below(self, y: int) -> nat
        decreases y,
    {
        if y <= 0 {
            0
        } else {
            self.complete_below(y - 1) + if self.is_complete(y - 1) {
                1nat
            } else {
                0nat
            }
        }
    }

    /// The number of complete rows of the board.
    pub open spec fn complete_rows(self) -> nat {
        self.complete_below(self.y_dim as int)
    }

    /// The predicate "does not lie in a complete row".
    pub open spec fn stays(self) -> spec_fn(Point) -> bool {
        |p: Point| !self.is_complete(p.y as int)
    }

    /// Where `p` comes to rest once the complete rows are gone: it moves
    /// toward row 0 by the number of complete rows with a smaller index.
    pub open spec fn settled(self, p: Point) -> Point {
        Point { x: p.x, y: (p.y - self.complete_below(p.y as int)) as i32 }
    }

    /// [`Board::settled`] as a function value.
    pub open spec fn settle(self) -> spec_fn(Point) -> Point {
        |p: Point| self.settled(p)
    }

    /// The entries outside the complete rows, each at its resting place, in
    /// the order in which `filled` lists them.
    pub open spec fn survivors(self) -> Seq<Point> {
        self.filled@.filter(self.stays()).map_values(self.settle())
    }

    /// The dimensions are not negative, every entry lies on the board, and no
    /// cell is listed twice.
    pub open spec fn wf(self) -> bool {
        &&& self.x_dim >= 0
        &&& self.y_dim >= 0
        &&& self.filled@.no_duplicates()
        &&& forall|i: int|
            0 <= i < self.filled@.len() ==> 0 <= (#[trigger] self.filled@[i]).x < self.x_dim && 0
                <= self.filled@[i].y < self.y_dim
    }

    /// `p` is a filled cell, or lies below the last row.
    pub open spec fn blocks(self, p: Point) -> bool {
        self.filled@.contains(p) || p.y >= self.y_dim
    }

    /// Some cell of `cells` is a filled cell or lies below the last row.
    pub open spec fn touches(self, cells: Seq<Point>) -> bool {
        exists|i: int| 0 <= i < cells.len() && self.blocks(#[trigger] cells[i])
    }

    /// Every cell of `cells` lies on the board.
    pub open spec fn encloses(self, cells: Seq<Point>) -> bool {
        forall|i: int|
            0 <= i < cells.len() ==> 0 <= (#[trigger] cells[i]).x < self.x_dim && 0 <= cells[i].y
                < self.y_dim
    }

    /// `self` is what `before` becomes when `cells` are placed on it: the same
    /// grid, in row-major order, each point listed as [`placed_count`] says.
    pub open spec fn is_placement_of(self, before: Board, cells: Seq<Point>) -> bool {
        &&& self.x_dim == before.x_dim
        &&& self.y_dim == before.y_dim
        &&& row_major(self.filled@)
        &&& forall|p: Point| #[trigger]
            self.filled@.to_multiset().count(p) == placed_count(before.filled@, cells, p)
    }

    /// `self` is what `before` becomes when its complete rows are cleared:
    /// the same grid; untouched where no row was complete; otherwise the
    /// survivors in row-major order.
    pub open spec fn is_clearing_of(self, before: Board) -> bool {
        &&& self.x_dim == before.x_dim
        &&& self.y_dim == before.y_dim
        &&& before.complete_rows() == 0 ==> self.filled@ == before.filled@
        &&& before.complete_rows() > 0 ==> row_major(self.filled@) && self.filled@.to_multiset()
            == before.survivors().to_multiset()
    }

    /// An empty board of `x_dim` columns and `y_dim` rows.
    pub fn new(x_dim: usize, y_dim: usize) -> (board: Board)
        requires
            x_dim <= i32::MAX,
            y_dim <= i32::MAX,
        ensures
            board.x_dim == x_dim,
            board.y_dim == y_dim,
            board.filled@ == Seq::<Point>::empty(),
            board.wf(),
    {
        Board { x_dim: x_dim as i32, y_dim: y_dim as i32, filled: Vec::new() }
    }

    /// Puts `filled` into row-major order.
    pub fn sort_filled(&mut self)
        ensures
            final(self).x_dim == old(self).x_dim,
            final(self).y_dim == old(self).y_dim,
            row_major(final(self).filled@),
            final(self).filled@.to_multiset() == old(self).filled@.to_multiset(),
    {
        sort_row_major(&mut self.filled);
    }

    /// Whether `p` is listed in `filled`.
    pub fn is_filled(&self, p: Point) -> (found: bool)
        ensures
            found == self.filled@.contains(p),
    {
        let mut j: usize = 0;
        while j < self.filled.len()
            invariant
                j <= self.filled.len(),
                !self.filled@.take(j as int).contains(p),
            decreases self.filled.len() - j,
        {
            if self.filled[j] == p {
                assert(self.filled@[j as int] == p);
                return true;
            }
            assert(self.filled@.take(j as int).push(self.filled@[j as int]) =~= self.filled@.take(
                j + 1,
            ));
            j += 1;
        }
        assert(self.filled@.take(self.filled.len() as int) =~= self.filled@);
        false
    }

    /// Whether `block` collides with the board: one of its cells is filled
    /// already, or lies below the last row. Columns are not looked at.
    pub fn block_touches(&self, block: &Block) -> (hit: bool)
        ensures
            hit == self.touches(block@.cells),
    {
        let cells = block.as_slice();
        let mut i: usize = 0;
        while i < 4
            invariant
                i <= 4,
                cells@.len() == 4,
                cells@ == block@.cells,
                !self.touches(cells@.take(i as int)),
            decreases 4 - i,
        {
            let c = cells[i];
            if self.is_filled(c) || c.y >= self.y_dim {
                assert(self.blocks(cells@[i as int]));
                return true;
            }
            i += 1;
        }
        assert(cells@.take(4) =~= cells@);
        false
    }

    /// Whether every cell of `block` lies on the board.
    pub fn within_bounds(&self, block: &Block) -> (inside: bool)
        ensures
            inside == self.encloses(block@.cells),
    {
        let cells = block.as_slice();
        let mut i: usize = 0;
        while i < 4
            invariant
                i <= 4,
                cells@.len() == 4,
                cells@ == block@.cells,
                self.encloses(cells@.take(i as int)),
            decreases 4 - i,
        {
            let c = cells[i];
            if c.x < 0 || c.x >= self.x_dim || c.y < 0 || c.y >= self.y_dim {
                assert(!(0 <= cells@[i as int].x < self.x_dim && 0 <= cells@[i as int].y
                    < self.y_dim));
                return false;
            }
            i += 1;
        }
        assert(cells@.take(4) =~= cells@);
        true
    }

    /// Adds the cells of `block` to `filled` and puts `filled` into row-major
    /// order. A cell that is listed already, or that `block` names twice, is
    /// not added again.
    pub fn place_block(&mut self, block: &Block)
        ensures
            final(self).is_placement_of(*old(self), block@.cells),
            old(self).filled@.no_duplicates() ==> final(self).filled@.no_duplicates(),
            old(self).wf() && old(self).encloses(block@.cells) ==> final(self).wf(),
    {
        let ghost before = self.filled@;
        let cells = block.as_slice();
        let mut i: usize = 0;
        proof {
            assert(cells@.take(0) =~= Seq::<Point>::empty());
            assert forall|p: Point| #[trigger]
                before.to_multiset().count(p) == placed_count(before, cells@.take(0), p) by {
                to_multiset_contains(before, p);
            }
        }
        while i < 4
            invariant
                i <= 4,
                cells@.len() == 4,
                cells@ == block@.cells,
                self.x_dim == old(self).x_dim,
                self.y_dim == old(self).y_dim,
                before == old(self).filled@,
                forall|p: Point| #[trigger]
                    self.filled@.to_multiset().count(p) == placed_count(
                        before,
                        cells@.take(i as int),
                        p,
                    ),
            decreases 4 - i,
        {
            let c = cells[i];
            let ghost acc = self.filled@;
            let ghost done = cells@.take(i as int);
            proof {
                assert(done.push(c) =~= cells@.take(i + 1));
                to_multiset_contains(acc, c);
                to_multiset_contains(before, c);
                assert forall|p: Point| cells@.take(i + 1).contains(p) <==> (done.contains(p) || p
                    == c) by {
                    vstd::seq_lib::lemma_seq_contains_after_push(done, c, p);
                }
            }
            if !self.is_filled(c) {
                self.filled.push(c);
                proof {
                    to_multiset_build(acc, c);
                }
            }
            i += 1;
        }
        assert(cells@.take(4) =~= cells@);
        sort_row_major(&mut self.filled);
        proof {
            let after = self.filled@;
            if before.no_duplicates() {
                before.lemma_multiset_has_no_duplicates();
                after.lemma_multiset_has_no_duplicates_conv();
            }
            if old(self).wf() && old(self).encloses(block@.cells) {
                assert forall|k: int| 0 <= k < after.len() implies 0 <= (#[trigger] after[k]).x
                    < self.x_dim && 0 <= after[k].y < self.y_dim by {
                    let p = after[k];
                    assert(after.contains(p));
                    to_multiset_contains(after, p);
                    to_multiset_contains(before, p);
                    if before.contains(p) {
                        let j = choose|j: int| 0 <= j < before.len() && before[j] == p;
                        assert(before[j] == p);
                    } else {
                        assert(cells@.contains(p));
                        let j = choose|j: int| 0 <= j < cells@.len() && cells@[j] == p;
                        assert(cells@[j] == p);
                    }
                }
            }
        }
    }
    /// Where no row below `y` is complete, the count of complete rows below
    /// `y` is zero.
    proof fn lemma_no_complete_row(self, y: int)
        requires
            forall|r: int| 0 <= r < y ==> !self.is_complete(r),
        ensures
            self.complete_below(y) == 0,
        decreases y,
    {
        if y > 0 {
            self.lemma_no_complete_row(y - 1);
        }
    }

    /// Fewer rows are complete below `y` than there are rows below `y`.
    proof fn lemma_complete_below_bounded(self, y: int)
        requires
            y >= 0,
        ensures
            self.complete_below(y) <= y,
        decreases y,
    {
        if y > 0 {
            self.lemma_complete_below_bounded(y - 1);
        }
    }

    /// Between two row indices the count of complete rows grows by no more
    /// than their distance.
    proof fn lemma_complete_below_grows(self, a: int, b: int)
        requires
            a <= b,
        ensures
            self.complete_below(a) <= self.complete_below(b) <= self.complete_below(a) + (b - a),
        decreases b - a,
    {
        if a < b {
            self.lemma_complete_below_grows(a, b - 1);
        }
    }

    /// Rows past the last one are never complete, so the count stops growing
    /// there.
    proof fn lemma_complete_below_levels_off(self, y: int)
        requires
            y >= self.y_dim,
            y >= 0,
        ensures
            self.complete_below(y) == self.complete_rows(),
        decreases y,
    {
        if y > self.y_dim && y > 0 {
            self.lemma_complete_below_levels_off(y - 1);
        } else if self.y_dim < 0 {
            assert(y == 0);
            assert(self.complete_below(self.y_dim as int) == 0);
        }
    }

    /// A point outside the complete rows keeps its `i32` range when it
    /// settles, and of two such points the one in the lower row stays lower.
    proof fn lemma_settled_rows(self, p: Point, q: Point)
        requires
            !self.is_complete(p.y as int),
        ensures
            p.y < 0 ==> self.settled(p).y == p.y,
            p.y >= 0 ==> 0 <= self.settled(p).y <= p.y,
            self.settled(p).y == p.y - self.complete_below(p.y as int),
            p.y < q.y ==> self.settled(p).y < q.y - self.complete_below(q.y as int),
    {
        if p.y >= 0 {
            self.lemma_complete_below_bounded(p.y as int);
        }
        if p.y < q.y {
            self.lemma_complete_below_grows(p.y + 1, q.y as int);
            if p.y < 0 {
                self.lemma_complete_below_grows(p.y as int, p.y + 1);
            }
        }
    }

    /// Per row of the board, how many entries of `filled` lie in it.
    fn row_counts(&self) -> (counts: Vec<usize>)
        ensures
            counts@.len() == if self.y_dim > 0 {
                self.y_dim as int
            } else {
                0
            },
            forall|r: int| 0 <= r < counts@.len() ==> counts@[r] == self.row_count(r),
    {
        let mut counts: Vec<usize> = Vec::new();
        let mut r: i32 = 0;
        while r < self.y_dim
            invariant
                0 <= r,
                r <= self.y_dim || r == 0,
                counts@.len() == r,
                forall|k: int| 0 <= k < r ==> counts@[k] == 0,
            decreases self.y_dim - r,
        {
            counts.push(0);
            r += 1;
        }
        let mut i: usize = 0;
        proof {
            assert forall|k: int| 0 <= k < counts@.len() implies counts@[k] == self.filled@.take(
                0,
            ).filter(in_row(k)).len() by {
                self.filled@.take(0).lemma_filter_len(in_row(k));
            }
        }
        while i < self.filled.len()
            invariant
                i <= self.filled.len(),
                counts@.len() == if self.y_dim > 0 {
                    self.y_dim as int
                } else {
                    0
                },
                forall|k: int|
                    0 <= k < counts@.len() ==> counts@[k] == self.filled@.take(i as int).filter(
                        in_row(k),
                    ).len(),
            decreases self.filled.len() - i,
        {
            let p = self.filled[i];
            let ghost seen = self.filled@.take(i as int);
            let ghost tally = counts@;
            proof {
                assert(seen.push(p) =~= self.filled@.take(i + 1));
                assert forall|k: int| 0 <= k < counts@.len() implies self.filled@.take(
                    i + 1,
                ).filter(in_row(k)).len() == tally[k] + if p.y == k {
                    1int
                } else {
                    0int
                } by {
                    seen.lemma_filter_len_push(in_row(k), p);
                }
            }
            if p.y >= 0 && p.y < self.y_dim {
                let y = p.y as usize;
                let c = counts[y];
                proof {
                    seen.lemma_filter_len(in_row(y as int));
                }
                counts.set(y, c + 1);
            }
            i += 1;
        }
        assert(self.filled@.take(self.filled.len() as int) =~= self.filled@);
        counts
    }

    /// Per row of the board, how many complete rows have a smaller index; and
    /// how many rows are complete in all.
    fn rows_cleared_above(&self, counts: &Vec<usize>) -> (r: (Vec<usize>, usize))
        requires
            counts@.len() == if self.y_dim > 0 {
                self.y_dim as int
            } else {
                0
            },
            forall|k: int| 0 <= k < counts@.len() ==> counts@[k] == self.row_count(k),
        ensures
            r.0@.len() == counts@.len(),
            forall|k: int| 0 <= k < counts@.len() ==> r.0@[k] == self.complete_below(k),
            r.1 == self.complete_rows(),
    {
        let mut above: Vec<usize> = Vec::new();
        let mut total: usize = 0;
        let mut k: usize = 0;
        while k < counts.len()
            invariant
                k <= counts@.len(),
                counts@.len() == if self.y_dim > 0 {
                    self.y_dim as int
                } else {
                    0
                },
                forall|j: int| 0 <= j < counts@.len() ==> counts@[j] == self.row_count(j),
                above@.len() == k,
                forall|j: int| 0 <= j < k ==> above@[j] == self.complete_below(j),
                total == self.complete_below(k as int),
                total <= k,
            decreases counts@.len() - k,
        {
            above.push(total);
            if self.x_dim >= 0 && counts[k] == self.x_dim as usize {
                total += 1;
            }
            k += 1;
        }
        proof {
            if self.y_dim < 0 {
                assert(self.complete_below(self.y_dim as int) == 0);
            }
        }
        (above, total)
    }

    /// Removes every complete row and lets the remaining entries settle: each
    /// moves toward row 0 by the number of complete rows with a smaller index.
    /// Returns how many rows were complete.
    ///
    /// With no complete row the board is left exactly as it was. Otherwise
    /// `filled` ends up in row-major order.
    pub fn clear_board(&mut self) -> (cleared: usize)
        ensures
            cleared == old(self).complete_rows(),
            final(self).is_clearing_of(*old(self)),
            old(self).wf() ==> final(self).wf(),
    {
        let counts = self.row_counts();
        let (above, total) = self.rows_cleared_above(&counts);
        if total == 0 {
            return 0;
        }
        let mut kept: Vec<Point> = Vec::new();
        let mut i: usize = 0;
        proof {
            assert(self.filled@.take(0).filter(self.stays()) =~= Seq::<Point>::empty()) by {
                self.filled@.take(0).lemma_filter_len(self.stays());
            }
            assert(Seq::<Point>::empty().map_values(self.settle()) =~= Seq::<Point>::empty());
        }
        while i < self.filled.len()
            invariant
                i <= self.filled.len(),
                *self == *old(self),
                counts@.len() == if self.y_dim > 0 {
                    self.y_dim as int
                } else {
                    0
                },
                forall|k: int| 0 <= k < counts@.len() ==> counts@[k] == self.row_count(k),
                above@.len() == counts@.len(),
                forall|k: int| 0 <= k < counts@.len() ==> above@[k] == self.complete_below(k),
                total == self.complete_rows(),
                kept@ == self.filled@.take(i as int).filter(self.stays()).map_values(self.settle()),
            decreases self.filled.len() - i,
        {
            let p = self.filled[i];
            let ghost seen = self.filled@.take(i as int);
            proof {
                assert(seen.push(p) =~= self.filled@.take(i + 1));
                seen.lemma_filter_push(p, self.stays());
                seen.filter(self.stays()).lemma_push_map_commute(self.settle(), p);
            }
            let on_board = p.y >= 0 && p.y < self.y_dim;
            let complete = on_board && self.x_dim >= 0 && counts[p.y as usize]
                == self.x_dim as usize;
            if !complete {
                proof {
                    self.lemma_settled_rows(p, p);
                    if p.y >= self.y_dim && p.y >= 0 {
                        self.lemma_complete_below_levels_off(p.y as int);
                    }
                }
                let drop: usize = if p.y < 0 {
                    0
                } else if p.y < self.y_dim {
                    above[p.y as usize]
                } else {
                    total
                };
                kept.push(Point::new(p.x, p.y - drop as i32));
            }
            i += 1;
        }
        assert(self.filled@.take(self.filled.len() as int) =~= self.filled@);
        let ghost unsorted = kept@;
        sort_row_major(&mut kept);
        proof {
            if self.wf() {
                old(self).lemma_survivors_wf();
                unsorted.lemma_multiset_has_no_duplicates();
                kept@.lemma_multiset_has_no_duplicates_conv();
                assert forall|k: int| 0 <= k < kept@.len() implies 0 <= (#[trigger] kept@[k]).x
                    < self.x_dim && 0 <= kept@[k].y < self.y_dim by {
                    let q = kept@[k];
                    assert(kept@.contains(q));
                    to_multiset_contains(kept@, q);
                    to_multiset_contains(unsorted, q);
                    let j = choose|j: int| 0 <= j < unsorted.len() && unsorted[j] == q;
                    assert(unsorted[j] == q);
                }
            }
        }
        self.filled = kept;
        total
    }

    /// On a well-formed board the survivors lie on the board and no two of
    /// them share a cell.
    proof fn lemma_survivors_wf(self)
        requires
            self.wf(),
        ensures
            self.survivors().no_duplicates(),
            forall|i: int|
                0 <= i < self.survivors().len() ==> 0 <= (#[trigger] self.survivors()[i]).x
                    < self.x_dim && 0 <= self.survivors()[i].y < self.y_dim,
    {
        let staying = self.filled@.filter(self.stays());
        let settled = self.survivors();
        assert forall|i: int| 0 <= i < staying.len() implies self.filled@.contains(
            #[trigger] staying[i],
        ) && !self.is_complete(staying[i].y as int) by {
            assert(staying.contains(staying[i]));
            self.filled@.lemma_filter_contains_rev(self.stays(), staying[i]);
            assert((self.stays())(staying[i]));
        }
        assert forall|i: int| 0 <= i < settled.len() implies 0 <= (#[trigger] settled[i]).x
            < self.x_dim && 0 <= settled[i].y < self.y_dim by {
            let p = staying[i];
            assert(self.filled@.contains(p));
            let j = choose|j: int| 0 <= j < self.filled@.len() && self.filled@[j] == p;
            assert(self.filled@[j] == p);
            self.lemma_settled_rows(p, p);
        }
        lemma_filter_no_duplicates(self.filled@, self.stays());
        assert forall|i: int, j: int| 0 <= i < settled.len() && 0 <= j < settled.len() && i
            != j implies settled[i] != settled[j] by {
            let p = staying[i];
            let q = staying[j];
            assert(p != q);
            self.lemma_settled_rows(p, q);
            self.lemma_settled_rows(q, p);
        }
    }
}

/// Placing has one result: two boards that both are the placement of `cells`
/// on `before` list the same points in the same order.
pub proof fn lemma_placement_unique(a: Board, b: Board, before: Board, cells: Seq<Point>)
    requires
        a.is_placement_of(before, cells),
        b.is_placement_of(before, cells),
    ensures
        a.filled@ == b.filled@,
{
    assert(a.filled@.to_multiset() =~= b.filled@.to_multiset());
    lemma_row_major_unique(a.filled@, b.filled@);
}

/// Clearing has one result: two boards that both are the clearing of `before`
/// list the same points in the same order.
pub proof fn lemma_clearing_unique(a: Board, b: Board, before: Board)
    requires
        a.is_clearing_of(before),
        b.is_clearing_of(before),
    ensures
        a.filled@ == b.filled@,
{
    if before.complete_rows() > 0 {
        lemma_row_major_unique(a.filled@, b.filled@);
    }
}

/// Placing never lists a cell twice that was not listed twice before, however
/// the placed cells overlap the board or each other; and what is listed
/// afterwards is what was listed before together with the placed cells.
pub proof fn lemma_placement_adds_no_duplicate(after: Board, before: Board, cells: Seq<Point>)
    requires
        after.is_placement_of(before, cells),
    ensures
        before.filled@.no_duplicates() ==> after.filled@.no_duplicates(),
        forall|p: Point| #[trigger]
            after.filled@.contains(p) <==> (before.filled@.contains(p) || cells.contains(p)),
        forall|p: Point|
            !before.filled@.contains(p) ==> #[trigger] after.filled@.to_multiset().count(p) <= 1,
{
    assert forall|p: Point| #[trigger]
        after.filled@.contains(p) <==> (before.filled@.contains(p) || cells.contains(p)) by {
        to_multiset_contains(after.filled@, p);
        to_multiset_contains(before.filled@, p);
        assert(after.filled@.to_multiset().count(p) == placed_count(before.filled@, cells, p));
    }
    assert forall|p: Point| !before.filled@.contains(p) implies #[trigger]
        after.filled@.to_multiset().count(p) <= 1 by {
        assert(after.filled@.to_multiset().count(p) == placed_count(before.filled@, cells, p));
    }
    if before.filled@.no_duplicates() {
        before.filled@.lemma_multiset_has_no_duplicates();
        assert forall|p: Point| after.filled@.to_multiset().count(p) <= 1 by {
            assert(after.filled@.to_multiset().count(p) == placed_count(before.filled@, cells, p));
        }
        after.filled@.lemma_multiset_has_no_duplicates_conv();
    }
}

/// Placing the same cells a second time changes nothing.
pub proof fn lemma_place_twice(once: Board, twice: Board, before: Board, cells: Seq<Point>)
    requires
        once.is_placement_of(before, cells),
        twice.is_placement_of(once, cells),
    ensures
        twice.filled@ == once.filled@,
{
    lemma_placement_adds_no_duplicate(once, before, cells);
    assert forall|p: Point|
        twice.filled@.to_multiset().count(p) == once.filled@.to_multiset().count(p) by {
        assert(twice.filled@.to_multiset().count(p) == placed_count(once.filled@, cells, p));
        to_multiset_contains(once.filled@, p);
    }
    assert(twice.filled@.to_multiset() =~= once.filled@.to_multiset());
    lemma_row_major_unique(twice.filled@, once.filled@);
}

/// With no complete row, clearing leaves the list of filled cells as it is.
pub proof fn lemma_nothing_to_clear(after: Board, before: Board)
    requires
        after.is_clearing_of(before),
        forall|y: int| 0 <= y < before.y_dim ==> !before.is_complete(y),
    ensures
        before.complete_rows() == 0,
        after.filled@ == before.filled@,
{
    before.lemma_no_complete_row(before.y_dim as int);
}

/// On a well-formed board a row is complete exactly when every cell of it is
/// filled.
pub proof fn lemma_complete_row_is_full(board: Board, y: int)
    requires
        board.wf(),
        0 <= y < board.y_dim,
    ensures
        board.is_complete(y) <==> forall|x: int|
            0 <= x < board.x_dim ==> board.filled@.contains(
                #[trigger] Point::at(x, y),
            ),
{
    let width = board.x_dim as int;
    let row = board.filled@.filter(in_row(y));
    let columns = row.map_values(|p: Point| p.x as int);
    let all = set_int_range(0, width);
    lemma_filter_no_duplicates(board.filled@, in_row(y));
    assert forall|i: int| 0 <= i < row.len() implies (#[trigger] row[i]).y == y && 0 <= row[i].x
        < width by {
        board.filled@.lemma_filter_pred(in_row(y), i);
        assert(row.contains(row[i]));
        board.filled@.lemma_filter_contains_rev(in_row(y), row[i]);
        let j = choose|j: int| 0 <= j < board.filled@.len() && board.filled@[j] == row[i];
        assert(board.filled@[j] == row[i]);
    }
    assert forall|i: int, j: int| 0 <= i < columns.len() && 0 <= j < columns.len() && i
        != j implies columns[i] != columns[j] by {
        assert(row[i] != row[j]);
        assert(row[i].y == row[j].y);
    }
    columns.unique_seq_to_set();
    seq_to_set_is_finite(columns);
    lemma_int_range(0, width);
    assert forall|x: int| columns.to_set().contains(x) implies all.contains(x) by {
        let i = choose|i: int| 0 <= i < columns.len() && columns[i] == x;
        assert(row[i].x == x);
    }
    if board.is_complete(y) {
        lemma_subset_equality(columns.to_set(), all);
        assert forall|x: int| 0 <= x < board.x_dim implies board.filled@.contains(
            #[trigger] Point::at(x, y),
        ) by {
            assert(all.contains(x));
            assert(columns.to_set().contains(x));
            let i = choose|i: int| 0 <= i < columns.len() && columns[i] == x;
            assert(row[i] == Point::at(x, y));
            assert(row.contains(row[i]));
            board.filled@.lemma_filter_contains_rev(in_row(y), row[i]);
        }
    }
    if forall|x: int|
        0 <= x < board.x_dim ==> board.filled@.contains(#[trigger] Point::at(x, y)) {
        assert forall|x: int| all.contains(x) implies columns.to_set().contains(x) by {
            let p = Point::at(x, y);
            assert(board.filled@.contains(p));
            let j = choose|j: int| 0 <= j < board.filled@.len() && board.filled@[j] == p;
            board.filled@.lemma_filter_contains(in_row(y), j);
            let i = choose|i: int| 0 <= i < row.len() && row[i] == p;
            assert(columns[i] == x);
        }
        assert(columns.to_set() =~= all);
    }
}

} // verus!
