//! Four-cell blocks: shapes, spawning, translation and rotation.

use crate::cells::{cells_as_slice, cells_new, cells_push, stored};
use crate::point::Point;
use arrayvec::ArrayVec;
use vstd::prelude::*;

verus! {

/// The seven block shapes.
#[derive(Debug, Clone, Copy, PartialEq, Eq, Structural, Hash)]
pub enum BlockShape {
    Square,
    Line,
    T,
    L,
    LRev,
    Z,
    ZRev,
}

impl BlockShape {
    /// All seven shapes, each once.
    pub fn all() -> (shapes: [BlockShape; 7])
        ensures
            shapes@ == seq![
                BlockShape::Square,
                BlockShape::Line,
                BlockShape::T,
                BlockShape::L,
                BlockShape::LRev,
                BlockShape::Z,
                BlockShape::ZRev,
            ],
            forall|shape: BlockShape| shapes@.contains(shape),
    {
        let shapes = [
            BlockShape::Square,
            BlockShape::Line,
            BlockShape::T,
            BlockShape::L,
            BlockShape::LRev,
            BlockShape::Z,
            BlockShape::ZRev,
        ];
        proof {
            assert(shapes@ =~= seq![
                BlockShape::Square,
                BlockShape::Line,
                BlockShape::T,
                BlockShape::L,
                BlockShape::LRev,
                BlockShape::Z,
                BlockShape::ZRev,
            ]);
            assert forall|shape: BlockShape| shapes@.contains(shape) by {
                match shape {
                    BlockShape::Square => assert(shapes@[0] == shape),
                    BlockShape::Line => assert(shapes@[1] == shape),
                    BlockShape::T => assert(shapes@[2] == shape),
                    BlockShape::L => assert(shapes@[3] == shape),
                    BlockShape::LRev => assert(shapes@[4] == shape),
                    BlockShape::Z => assert(shapes@[5] == shape),
                    BlockShape::ZRev => assert(shapes@[6] == shape),
                }
            }
        }
        shapes
    }
}

/// The cells of `shape` relative to its spawn origin.
pub open spec fn offsets(shape: BlockShape) -> Seq<Point> {
    match shape {
        BlockShape::Square => seq![
            Point { x: 0, y: 0 },
            Point { x: 1, y: 0 },
            Point { x: 0, y: 1 },
            Point { x: 1, y: 1 },
        ],
        BlockShape::Line => seq![
            Point { x: 0, y: 0 },
            Point { x: 1, y: 0 },
            Point { x: 2, y: 0 },
            Point { x: 3, y: 0 },
        ],
        BlockShape::T => seq![
            Point { x: 0, y: 0 },
            Point { x: 0, y: 1 },
            Point { x: 1, y: 1 },
            Point { x: 2, y: 1 },
        ],
        BlockShape::L => seq![
            Point { x: 0, y: 0 },
            Point { x: 0, y: 1 },
            Point { x: 0, y: 2 },
            Point { x: 1, y: 2 },
        ],
        BlockShape::LRev => seq![
            Point { x: 1, y: 0 },
            Point { x: 1, y: 1 },
            Point { x: 1, y: 2 },
            Point { x: 0, y: 2 },
        ],
        BlockShape::Z => seq![
            Point { x: 0, y: 1 },
            Point { x: 1, y: 1 },
            Point { x: 1, y: 0 },
            Point { x: 2, y: 0 },
        ],
        BlockShape::ZRev => seq![
            Point { x: 0, y: 0 },
            Point { x: 1, y: 0 },
            Point { x: 1, y: 1 },
            Point { x: 2, y: 1 },
        ],
    }
}

/// `moved` is `cells` with every cell shifted by `(dx, dy)`.
pub open spec fn is_shift_of(moved: Seq<Point>, cells: Seq<Point>, dx: int, dy: int) -> bool {
    &&& moved.len() == cells.len()
    &&& forall|i: int|
        0 <= i < cells.len() ==> moved[i].x == cells[i].x + dx && moved[i].y == cells[i].y + dy
}

/// `cells` with every cell shifted by `(dx, dy)`. Meaningful where the shift
/// stays within the range of `i32`.
pub open spec fn shifted(cells: Seq<Point>, dx: int, dy: int) -> Seq<Point> {
    Seq::new(
        cells.len(),
        |i: int| Point { x: (cells[i].x + dx) as i32, y: (cells[i].y + dy) as i32 },
    )
}

/// Every cell of `cells` has both components at or above zero.
pub open spec fn all_non_negative(cells: Seq<Point>) -> bool {
    forall|i: int| 0 <= i < cells.len() ==> cells[i].x >= 0 && cells[i].y >= 0
}

/// Shifting `cells` by `(dx, dy)` leaves no cell with a negative component.
pub open spec fn shift_non_negative(cells: Seq<Point>, dx: int, dy: int) -> bool {
    forall|i: int| 0 <= i < cells.len() ==> cells[i].x + dx >= 0 && cells[i].y + dy >= 0
}

/// Shifting `cells` by `(dx, dy)` pushes no cell beyond the largest `i32`.
pub open spec fn shift_fits(cells: Seq<Point>, dx: int, dy: int) -> bool {
    forall|i: int|
        0 <= i < cells.len() ==> cells[i].x + dx <= i32::MAX && cells[i].y + dy <= i32::MAX
}

/// The integer nearest to `n / 4`; a tie goes away from zero.
pub open spec fn quarter_round(n: int) -> int {
    if n >= 0 {
        (n + 2) / 4
    } else {
        -((2 - n) / 4)
    }
}

/// Sum of the `x` components of four cells.
pub open spec fn sum_x(cells: Seq<Point>) -> int {
    cells[0].x + cells[1].x + cells[2].x + cells[3].x
}

/// Sum of the `y` components of four cells.
pub open spec fn sum_y(cells: Seq<Point>) -> int {
    cells[0].y + cells[1].y + cells[2].y + cells[3].y
}

/// The `x` component of cell `i` after a quarter turn clockwise about the
/// centroid of `cells`.
///
/// With the centroid at `(cx, cy) = (sum_x / 4, sum_y / 4)`, the turn sends
/// `(x, y)` to `(cx - (y - cy), cy + (x - cx))`. Written over quarters this is
/// `(sum_x + sum_y - 4y) / 4`, which is then rounded.
pub open spec fn turned_x(cells: Seq<Point>, i: int) -> int {
    quarter_round(sum_x(cells) + sum_y(cells) - 4 * cells[i].y)
}

/// The `y` component of cell `i` after a quarter turn clockwise about the
/// centroid of `cells`: `(sum_y - sum_x + 4x) / 4`, rounded.
pub open spec fn turned_y(cells: Seq<Point>, i: int) -> int {
    quarter_round(sum_y(cells) - sum_x(cells) + 4 * cells[i].x)
}

/// Four cells after a quarter turn clockwise about their centroid. Meaningful
/// where the turn stays within the range of `i32`.
pub open spec fn turned(cells: Seq<Point>) -> Seq<Point> {
    Seq::new(4, |i: int| Point { x: turned_x(cells, i) as i32, y: turned_y(cells, i) as i32 })
}

/// `turned` is `cells` after a quarter turn clockwise about its centroid.
pub open spec fn is_turn_of(turned: Seq<Point>, cells: Seq<Point>) -> bool {
    &&& turned.len() == 4
    &&& forall|i: int|
        0 <= i < 4 ==> turned[i].x == turned_x(cells, i) && turned[i].y == turned_y(cells, i)
}

/// A quarter turn of `cells` leaves no cell with a negative component.
pub open spec fn turn_non_negative(cells: Seq<Point>) -> bool {
    forall|i: int| 0 <= i < 4 ==> turned_x(cells, i) >= 0 && turned_y(cells, i) >= 0
}

/// A quarter turn of `cells` pushes no cell beyond the largest `i32`.
pub open spec fn turn_fits(cells: Seq<Point>) -> bool {
    forall|i: int| 0 <= i < 4 ==> turned_x(cells, i) <= i32::MAX && turned_y(cells, i) <= i32::MAX
}

/// Why a move of a block was turned down.
#[derive(Debug, Clone, Copy, PartialEq, Eq, Structural)]
pub enum BlockError {
    /// The move would put a cell at a negative coordinate.
    OutOfBounds,
}

impl BlockError {
    /// The error in words.
    pub fn message(&self) -> (text: String)
        ensures
            text@ == "the move would put a cell at a negative coordinate"@,
    {
        match self {
            BlockError::OutOfBounds => "the move would put a cell at a negative coordinate"
                .to_string(),
        }
    }
}

/// What a block is, as far as contracts are concerned: its shape tag and its
/// cells in order.
pub ghost struct BlockView {
    pub shape: BlockShape,
    pub cells: Seq<Point>,
}

/// A shape tag together with exactly four cells.
#[derive(Debug)]
pub struct Block {
    shape: BlockShape,
    coordinates: ArrayVec<Point, 4>,
}

impl View for Block {
    type V = BlockView;

    closed spec fn view(&self) -> BlockView {
        BlockView { shape: self.shape, cells: stored(self.coordinates) }
    }
}

fn relative_coordinates(shape: BlockShape) -> (rel: [Point; 4])
    ensures
        rel@ == offsets(shape),
{
    let rel = match shape {
        BlockShape::Square => [
            Point::new(0, 0),
            Point::new(1, 0),
            Point::new(0, 1),
            Point::new(1, 1),
        ],
        BlockShape::Line => [
            Point::new(0, 0),
            Point::new(1, 0),
            Point::new(2, 0),
            Point::new(3, 0),
        ],
        BlockShape::T => [Point::new(0, 0), Point::new(0, 1), Point::new(1, 1), Point::new(2, 1)],
        BlockShape::L => [Point::new(0, 0), Point::new(0, 1), Point::new(0, 2), Point::new(1, 2)],
        BlockShape::LRev => [
            Point::new(1, 0),
            Point::new(1, 1),
            Point::new(1, 2),
            Point::new(0, 2),
        ],
        BlockShape::Z => [Point::new(0, 1), Point::new(1, 1), Point::new(1, 0), Point::new(2, 0)],
        BlockShape::ZRev => [
            Point::new(0, 0),
            Point::new(1, 0),
            Point::new(1, 1),
            Point::new(2, 1),
        ],
    };
    assert(rel@ =~= offsets(shape));
    rel
}

/// `quarter_round` on machine integers.
fn round_quarters(n: i64) -> (r: i64)
    requires
        -0x10_0000_0000 <= n <= 0x10_0000_0000,
    ensures
        r == quarter_round(n as int),
{
    if n >= 0 {
        (n + 2) / 4
    } else {
        -((2 - n) / 4)
    }
}

impl Block {
    #[verifier::type_invariant]
    pub closed spec fn four_cells(self) -> bool {
        stored(self.coordinates).len() == 4
    }

    /// Whether a block of `shape` can spawn at `origin` without leaving the
    /// range of `i32`.
    pub open spec fn spawn_fits(origin: Point, shape: BlockShape) -> bool {
        forall|i: int| 0 <= i < 4 ==> (#[trigger] offsets(shape)[i]).sum_fits(origin)
    }

    /// A fresh block of `shape`: its canonical offsets, each moved by `origin`.
    pub fn new(origin: Point, shape: BlockShape) -> (b: Block)
        requires
            Self::spawn_fits(origin, shape),
        ensures
            b@.shape == shape,
            is_shift_of(b@.cells, offsets(shape), origin.x as int, origin.y as int),
    {
        let rel = relative_coordinates(shape);
        let mut coordinates = cells_new();
        let mut i: usize = 0;
        while i < 4
            invariant
                i <= 4,
                rel@ == offsets(shape),
                Self::spawn_fits(origin, shape),
                is_shift_of(
                    stored(coordinates),
                    offsets(shape).take(i as int),
                    origin.x as int,
                    origin.y as int,
                ),
            decreases 4 - i,
        {
            assert(offsets(shape)[i as int].sum_fits(origin));
            let p = rel[i].add(&origin);
            cells_push(&mut coordinates, p);
            i += 1;
        }
        Block { shape, coordinates }
    }

    /// The shape tag.
    pub fn shape(&self) -> (shape: BlockShape)
        ensures
            shape == self@.shape,
    {
        self.shape
    }

    /// The four cells, in order, for reading.
    pub fn coordinates(&self) -> (v: &ArrayVec<Point, 4>)
        ensures
            stored(*v) == self@.cells,
            self@.cells.len() == 4,
    {
        proof {
            use_type_invariant(self);
        }
        &self.coordinates
    }

    /// The four cells as a slice.
    pub fn as_slice(&self) -> (s: &[Point])
        ensures
            s@ == self@.cells,
            s@.len() == 4,
    {
        proof {
            use_type_invariant(self);
        }
        cells_as_slice(&self.coordinates)
    }

    /// True iff no cell has a negative component.
    pub fn not_negative(&self) -> (ok: bool)
        ensures
            ok == all_non_negative(self@.cells),
    {
        let cells = self.as_slice();
        let mut i: usize = 0;
        while i < 4
            invariant
                i <= 4,
                cells@.len() == 4,
                cells@ == self@.cells,
                all_non_negative(cells@.take(i as int)),
            decreases 4 - i,
        {
            if !cells[i].not_negative() {
                assert(cells@[i as int].x < 0 || cells@[i as int].y < 0);
                return false;
            }
            i += 1;
        }
        assert(cells@.take(4) =~= cells@);
        true
    }

    /// The block moved by `(dx, dy)`, or `OutOfBounds` if that would put a cell
    /// at a negative coordinate.
    pub fn translate(&self, dx: i32, dy: i32) -> (r: Result<Block, BlockError>)
        requires
            shift_fits(self@.cells, dx as int, dy as int),
        ensures
            r is Ok <==> shift_non_negative(self@.cells, dx as int, dy as int),
            r matches Ok(b) ==> b@.shape == self@.shape && is_shift_of(
                b@.cells,
                self@.cells,
                dx as int,
                dy as int,
            ),
    {
        let cells = self.as_slice();
        let mut coordinates = cells_new();
        let mut i: usize = 0;
        while i < 4
            invariant
                i <= 4,
                cells@.len() == 4,
                cells@ == self@.cells,
                shift_fits(cells@, dx as int, dy as int),
                shift_non_negative(cells@.take(i as int), dx as int, dy as int),
                is_shift_of(stored(coordinates), cells@.take(i as int), dx as int, dy as int),
            decreases 4 - i,
        {
            let x: i64 = cells[i].x as i64 + dx as i64;
            let y: i64 = cells[i].y as i64 + dy as i64;
            if x < 0 || y < 0 {
                assert(cells@[i as int].x + dx < 0 || cells@[i as int].y + dy < 0);
                return Err(BlockError::OutOfBounds);
            }
            cells_push(&mut coordinates, Point::new(x as i32, y as i32));
            i += 1;
        }
        assert(cells@.take(4) =~= cells@);
        Ok(Block { shape: self.shape, coordinates })
    }

    /// Whether `translate(dx, dy)` may be called: no cell would pass the
    /// largest `i32`.
    pub fn translation_fits(&self, dx: i32, dy: i32) -> (ok: bool)
        ensures
            ok == shift_fits(self@.cells, dx as int, dy as int),
    {
        let cells = self.as_slice();
        let mut i: usize = 0;
        while i < 4
            invariant
                i <= 4,
                cells@.len() == 4,
                cells@ == self@.cells,
                shift_fits(cells@.take(i as int), dx as int, dy as int),
            decreases 4 - i,
        {
            let x: i64 = cells[i].x as i64 + dx as i64;
            let y: i64 = cells[i].y as i64 + dy as i64;
            if x > i32::MAX as i64 || y > i32::MAX as i64 {
                assert(cells@[i as int].x + dx > i32::MAX || cells@[i as int].y + dy > i32::MAX);
                return false;
            }
            i += 1;
        }
        assert(cells@.take(4) =~= cells@);
        true
    }

    /// The block after a quarter turn clockwise about the centroid of its
    /// cells, each turned cell rounded to the nearest grid point (a tie goes
    /// away from zero); or `OutOfBounds` if that would put a cell at a negative
    /// coordinate. A square is returned as it is.
    pub fn rotate(&self) -> (r: Result<Block, BlockError>)
        requires
            self@.shape != BlockShape::Square ==> turn_fits(self@.cells),
        ensures
            self@.shape == BlockShape::Square ==> (r matches Ok(b) && b@ == self@),
            self@.shape != BlockShape::Square ==> (r is Ok <==> turn_non_negative(self@.cells)),
            self@.shape != BlockShape::Square ==> (r matches Ok(b) ==> b@.shape == self@.shape
                && is_turn_of(b@.cells, self@.cells)),
    {
        if self.shape == BlockShape::Square {
            return Ok(self.clone());
        }
        let cells = self.as_slice();
        let sx: i64 = cells[0].x as i64 + cells[1].x as i64 + cells[2].x as i64 + cells[3].x as i64;
        let sy: i64 = cells[0].y as i64 + cells[1].y as i64 + cells[2].y as i64 + cells[3].y as i64;
        let mut coordinates = cells_new();
        let mut i: usize = 0;
        while i < 4
            invariant
                i <= 4,
                cells@.len() == 4,
                cells@ == self@.cells,
                self@.shape != BlockShape::Square,
                sx == sum_x(cells@),
                sy == sum_y(cells@),
                turn_fits(cells@),
                stored(coordinates).len() == i,
                forall|k: int|
                    0 <= k < i ==> {
                        &&& turned_x(cells@, k) >= 0
                        &&& turned_y(cells@, k) >= 0
                        &&& stored(coordinates)[k].x == turned_x(cells@, k)
                        &&& stored(coordinates)[k].y == turned_y(cells@, k)
                    },
            decreases 4 - i,
        {
            let x = round_quarters(sx + sy - 4 * (cells[i].y as i64));
            let y = round_quarters(sy - sx + 4 * (cells[i].x as i64));
            assert(x == turned_x(cells@, i as int) && y == turned_y(cells@, i as int));
            if x < 0 || y < 0 {
                return Err(BlockError::OutOfBounds);
            }
            cells_push(&mut coordinates, Point::new(x as i32, y as i32));
            i += 1;
        }
        Ok(Block { shape: self.shape, coordinates })
    }

    /// Whether `rotate` may be called: the block is a square, or no turned
    /// cell would pass the largest `i32`.
    pub fn rotation_fits(&self) -> (ok: bool)
        ensures
            ok == (self@.shape != BlockShape::Square ==> turn_fits(self@.cells)),
    {
        if self.shape == BlockShape::Square {
            return true;
        }
        let cells = self.as_slice();
        let sx: i64 = cells[0].x as i64 + cells[1].x as i64 + cells[2].x as i64 + cells[3].x as i64;
        let sy: i64 = cells[0].y as i64 + cells[1].y as i64 + cells[2].y as i64 + cells[3].y as i64;
        let mut i: usize = 0;
        while i < 4
            invariant
                i <= 4,
                cells@.len() == 4,
                cells@ == self@.cells,
                self@.shape != BlockShape::Square,
                sx == sum_x(cells@),
                sy == sum_y(cells@),
                forall|k: int|
                    0 <= k < i ==> turned_x(cells@, k) <= i32::MAX && turned_y(cells@, k)
                        <= i32::MAX,
            decreases 4 - i,
        {
            let x = round_quarters(sx + sy - 4 * (cells[i].y as i64));
            let y = round_quarters(sy - sx + 4 * (cells[i].x as i64));
            assert(x == turned_x(cells@, i as int) && y == turned_y(cells@, i as int));
            if x > i32::MAX as i64 || y > i32::MAX as i64 {
                return false;
            }
            i += 1;
        }
        true
    }
}

impl Clone for Block {
    fn clone(&self) -> (b: Block)
        ensures
            b@ == self@,
    {
        let cells = self.as_slice();
        let mut coordinates = cells_new();
        let mut i: usize = 0;
        while i < 4
            invariant
                i <= 4,
                cells@.len() == 4,
                stored(coordinates) == cells@.take(i as int),
            decreases 4 - i,
        {
            cells_push(&mut coordinates, cells[i]);
            assert(cells@.take(i as int).push(cells@[i as int]) =~= cells@.take(i + 1));
            i += 1;
        }
        assert(cells@.take(4) =~= cells@);
        Block { shape: self.shape, coordinates }
    }
}

/// `quarter_round(n)` is the integer nearest to `n / 4`: it lies within half a
/// unit of it, and where `n / 4` is exactly halfway between two integers the
/// one further from zero is taken.
pub proof fn lemma_quarter_round_nearest(n: int)
    ensures
        -2 <= 4 * quarter_round(n) - n <= 2,
        4 * quarter_round(n) - n == 2 ==> n > 0,
        4 * quarter_round(n) - n == -2 ==> n < 0,
{
}

/// How far four quarter turns in a row carry a block along both axes. It
/// depends only on the remainders of the two coordinate sums modulo four.
pub open spec fn spin_drift(cells: Seq<Point>) -> int {
    let s = sum_x(cells) % 4;
    let t = sum_y(cells) % 4;
    if s % 2 == 1 && t % 2 == 1 {
        1
    } else if (s == 0 && t == 2) || (s == 2 && t == 0) {
        2
    } else {
        0
    }
}

/// A quarter turn that leaves no cell negative is a rigid motion of the grid:
/// every cell `(x, y)` goes to `(a - y, b + x)` for the same `a` and `b`.
pub proof fn lemma_turn_is_rigid(turned: Seq<Point>, cells: Seq<Point>)
    requires
        cells.len() == 4,
        is_turn_of(turned, cells),
        turn_non_negative(cells),
    ensures
        forall|i: int|
            0 <= i < 4 ==> {
                &&& (#[trigger] turned[i]).x == (sum_x(cells) + sum_y(cells) + 2) / 4 - cells[i].y
                &&& turned[i].y == (sum_y(cells) - sum_x(cells) + 2) / 4 + cells[i].x
            },
        sum_x(turned) == 4 * ((sum_x(cells) + sum_y(cells) + 2) / 4) - sum_y(cells),
        sum_y(turned) == 4 * ((sum_y(cells) - sum_x(cells) + 2) / 4) + sum_x(cells),
{
    let a = (sum_x(cells) + sum_y(cells) + 2) / 4;
    let b = (sum_y(cells) - sum_x(cells) + 2) / 4;
    assert forall|i: int| 0 <= i < 4 implies (#[trigger] turned[i]).x == a - cells[i].y
        && turned[i].y == b + cells[i].x by {
        assert(turned[i].x == turned_x(cells, i) && turned[i].y == turned_y(cells, i));
        assert(turned_x(cells, i) >= 0 && turned_y(cells, i) >= 0);
    }
    assert(turned[0].x == a - cells[0].y);
    assert(turned[1].x == a - cells[1].y);
    assert(turned[2].x == a - cells[2].y);
    assert(turned[3].x == a - cells[3].y);
    assert(turned[0].y == b + cells[0].x);
    assert(turned[1].y == b + cells[1].x);
    assert(turned[2].y == b + cells[2].x);
    assert(turned[3].y == b + cells[3].x);
}

/// The drift of four quarter turns, over the coordinate sums alone.
///
/// A rigid quarter turn with offsets `(a, b)` takes coordinate sums `(sx, sy)`
/// to `(4a - sy, 4b + sx)`. Following the offsets through four turns gives the
/// total displacement, which this lemma evaluates.
proof fn lemma_drift_of_sums(sx: int, sy: int)
    ensures
        ({
            let a0 = (sx + sy + 2) / 4;
            let b0 = (sy - sx + 2) / 4;
            let (sx1, sy1) = (4 * a0 - sy, 4 * b0 + sx);
            let a1 = (sx1 + sy1 + 2) / 4;
            let b1 = (sy1 - sx1 + 2) / 4;
            let (sx2, sy2) = (4 * a1 - sy1, 4 * b1 + sx1);
            let a2 = (sx2 + sy2 + 2) / 4;
            let b2 = (sy2 - sx2 + 2) / 4;
            let (sx3, sy3) = (4 * a2 - sy2, 4 * b2 + sx2);
            let a3 = (sx3 + sy3 + 2) / 4;
            let b3 = (sy3 - sx3 + 2) / 4;
            let d = if (sx % 4) % 2 == 1 && (sy % 4) % 2 == 1 {
                1int
            } else if (sx % 4 == 0 && sy % 4 == 2) || (sx % 4 == 2 && sy % 4 == 0) {
                2int
            } else {
                0int
            };
            &&& a3 - b2 - a1 + b0 == d
            &&& b3 + a2 - b1 - a0 == d
        }),
{
    let qx = sx / 4;
    let rx = sx % 4;
    let qy = sy / 4;
    let ry = sy % 4;
    assert(sx == 4 * qx + rx && 0 <= rx < 4);
    assert(sy == 4 * qy + ry && 0 <= ry < 4);
    let a0 = (sx + sy + 2) / 4;
    let b0 = (sy - sx + 2) / 4;
    assert(a0 == qx + qy + (rx + ry + 2) / 4);
    assert(b0 == qy - qx + (ry - rx + 2) / 4);
    let (sx1, sy1) = (4 * a0 - sy, 4 * b0 + sx);
    let a1 = (sx1 + sy1 + 2) / 4;
    let b1 = (sy1 - sx1 + 2) / 4;
    assert(a1 == a0 + b0 + (rx - ry + 2) / 4 + qx - qy);
    assert(b1 == b0 - a0 + (rx + ry + 2) / 4 + qx + qy);
    let (sx2, sy2) = (4 * a1 - sy1, 4 * b1 + sx1);
    let a2 = (sx2 + sy2 + 2) / 4;
    let b2 = (sy2 - sx2 + 2) / 4;
    assert(a2 == a1 + b1 - b0 + a0 - qx - qy + (2 - rx - ry) / 4);
    assert(b2 == b1 - a1 + b0 + a0 + (rx - ry + 2) / 4 + qx - qy);
    let (sx3, sy3) = (4 * a2 - sy2, 4 * b2 + sx2);
    let a3 = (sx3 + sy3 + 2) / 4;
    let b3 = (sy3 - sx3 + 2) / 4;
    assert(a3 == a2 - b1 - a0 + b2 + a1 - b0 + (ry - rx + 2) / 4 + qy - qx);
    assert(b3 == b2 + a1 - b0 - a2 + b1 + a0 + (2 - rx - ry) / 4 - qx - qy);
}

/// Four quarter turns in a row, none of which leaves a cell negative, bring
/// every cell back to where it was, moved by `spin_drift` along both axes.
///
/// The drift comes from rounding. It is zero, and the block returns exactly,
/// unless both coordinate sums are odd or one sum is a multiple of four while
/// the other is two more than one.
pub proof fn lemma_four_turns(
    start: Seq<Point>,
    first: Seq<Point>,
    second: Seq<Point>,
    third: Seq<Point>,
    fourth: Seq<Point>,
)
    requires
        start.len() == 4,
        is_turn_of(first, start),
        turn_non_negative(start),
        is_turn_of(second, first),
        turn_non_negative(first),
        is_turn_of(third, second),
        turn_non_negative(second),
        is_turn_of(fourth, third),
        turn_non_negative(third),
    ensures
        is_shift_of(fourth, start, spin_drift(start), spin_drift(start)),
        spin_drift(start) == 0 ==> fourth == start,
{
    lemma_turn_is_rigid(first, start);
    lemma_turn_is_rigid(second, first);
    lemma_turn_is_rigid(third, second);
    lemma_turn_is_rigid(fourth, third);
    lemma_drift_of_sums(sum_x(start), sum_y(start));
    let d = spin_drift(start);
    let a0 = (sum_x(start) + sum_y(start) + 2) / 4;
    let b0 = (sum_y(start) - sum_x(start) + 2) / 4;
    let a1 = (sum_x(first) + sum_y(first) + 2) / 4;
    let b1 = (sum_y(first) - sum_x(first) + 2) / 4;
    let a2 = (sum_x(second) + sum_y(second) + 2) / 4;
    let b2 = (sum_y(second) - sum_x(second) + 2) / 4;
    let a3 = (sum_x(third) + sum_y(third) + 2) / 4;
    let b3 = (sum_y(third) - sum_x(third) + 2) / 4;
    assert(a3 - b2 - a1 + b0 == d && b3 + a2 - b1 - a0 == d);
    assert forall|i: int| 0 <= i < 4 implies fourth[i].x == start[i].x + d && fourth[i].y
        == start[i].y + d by {
        assert(first[i].x == a0 - start[i].y && first[i].y == b0 + start[i].x);
        assert(second[i].x == a1 - first[i].y && second[i].y == b1 + first[i].x);
        assert(third[i].x == a2 - second[i].y && third[i].y == b2 + second[i].x);
        assert(fourth[i].x == a3 - third[i].y && fourth[i].y == b3 + third[i].x);
    }
    if d == 0 {
        assert(fourth =~= start);
    }
}

} // verus!
