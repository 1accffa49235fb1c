//! A character picture of a board and the block falling on it.

use crate::block::Block;
use crate::board::Board;
use crate::point::Point;
use vstd::prelude::*;

verus! {

/// Glyph of a cell that one of the falling block's cells covers.
pub const BLOCK_GLYPH: char = '*';

/// Glyph of a filled cell.
pub const FILLED_GLYPH: char = '#';

/// Glyph of an empty cell.
pub const EMPTY_GLYPH: char = '.';

/// The glyph at `p`: the block's where the block covers it, else the filled
/// one where the board lists it, else the empty one.
pub open spec fn glyph_at(filled: Seq<Point>, cells: Seq<Point>, p: Point) -> char {
    if cells.contains(p) {
        BLOCK_GLYPH
    } else if filled.contains(p) {
        FILLED_GLYPH
    } else {
        EMPTY_GLYPH
    }
}

/// `rows` pictures a grid of `x_dim` columns and `y_dim` rows: one row of
/// glyphs per grid row, top row first, one glyph per column.
pub open spec fn is_picture_of(
    rows: Seq<Seq<char>>,
    x_dim: int,
    y_dim: int,
    filled: Seq<Point>,
    cells: Seq<Point>,
) -> bool {
    &&& rows.len() == if y_dim > 0 {
        y_dim
    } else {
        0
    }
    &&& forall|y: int|
        0 <= y < rows.len() ==> (#[trigger] rows[y]).len() == if x_dim > 0 {
            x_dim
        } else {
            0
        }
    &&& forall|y: int, x: int|
        0 <= y < rows.len() && 0 <= x < rows[y].len() ==> #[trigger] rows[y][x] == glyph_at(
            filled,
            cells,
            Point { x: x as i32, y: y as i32 },
        )
}

/// Whether one of the four cells of `block` is `p`.
fn covers(block: &Block, p: Point) -> (found: bool)
    ensures
        found == block@.cells.contains(p),
{
    let cells = block.as_slice();
    let mut i: usize = 0;
    while i < 4
        invariant
            i <= 4,
            cells@.len() == 4,
            cells@ == block@.cells,
            !cells@.take(i as int).contains(p),
        decreases 4 - i,
    {
        if cells[i] == p {
            assert(cells@[i as int] == p);
            return true;
        }
        assert(cells@.take(i as int).push(cells@[i as int]) =~= cells@.take(i + 1));
        i += 1;
    }
    assert(cells@.take(4) =~= cells@);
    false
}

/// One row of the picture.
fn draw_row(board: &Board, block: &Block, y: i32) -> (row: Vec<char>)
    ensures
        row@.len() == if board.x_dim > 0 {
            board.x_dim as int
        } else {
            0
        },
        forall|x: int|
            0 <= x < row@.len() ==> #[trigger] row@[x] == glyph_at(
                board.filled@,
                block@.cells,
                Point { x: x as i32, y },
            ),
{
    let mut row: Vec<char> = Vec::new();
    let mut x: i32 = 0;
    while x < board.x_dim
        invariant
            0 <= x,
            x <= board.x_dim || x == 0,
            row@.len() == x,
            forall|k: int|
                0 <= k < x ==> #[trigger] row@[k] == glyph_at(
                    board.filled@,
                    block@.cells,
                    Point { x: k as i32, y },
                ),
        decreases board.x_dim - x,
    {
        let p = Point::new(x, y);
        let glyph = if covers(block, p) {
            BLOCK_GLYPH
        } else if board.is_filled(p) {
            FILLED_GLYPH
        } else {
            EMPTY_GLYPH
        };
        row.push(glyph);
        x += 1;
    }
    row
}

/// The picture of `board` with `block` on it, row by row from the top. Cells
/// of the block or of `filled` that lie off the board do not show.
pub fn draw_rows(board: &Board, block: &Block) -> (rows: Vec<Vec<char>>)
    ensures
        is_picture_of(
            rows.deep_view(),
            board.x_dim as int,
            board.y_dim as int,
            board.filled@,
            block@.cells,
        ),
{
    let mut rows: Vec<Vec<char>> = Vec::new();
    let mut y: i32 = 0;
    while y < board.y_dim
        invariant
            0 <= y,
            y <= board.y_dim || y == 0,
            rows@.len() == y,
            forall|k: int|
                0 <= k < y ==> (#[trigger] rows@[k])@.len() == if board.x_dim > 0 {
                    board.x_dim as int
                } else {
                    0
                },
            forall|k: int, x: int|
                0 <= k < y && 0 <= x < rows@[k]@.len() ==> #[trigger] rows@[k]@[x] == glyph_at(
                    board.filled@,
                    block@.cells,
                    Point { x: x as i32, y: k as i32 },
                ),
        decreases board.y_dim - y,
    {
        let row = draw_row(board, block, y);
        rows.push(row);
        y += 1;
    }
    proof {
        let picture = rows.deep_view();
        assert(picture.len() == rows@.len());
        assert forall|k: int| 0 <= k < picture.len() implies #[trigger] picture[k] == rows@[k]@ by {
            assert(picture[k] =~= rows@[k]@);
        }
    }
    rows
}

} // verus!
