//! The rules that tie one falling block to a board: which moves are taken,
//! when the block locks, and when the game is over.

use crate::block::{
    is_shift_of, is_turn_of, offsets, shift_fits, shift_non_negative, shifted, turn_fits,
    turn_non_negative, turned, Block, BlockShape,
};
use crate::board::Board;
use crate::point::Point;
use vstd::prelude::*;

verus! {

/// Column at which a new block spawns.
pub const SPAWN_X: i32 = 4;

/// Row at which a new block spawns.
pub const SPAWN_Y: i32 = 0;

/// What the player, or the clock, asks of the falling block.
#[derive(Debug, Clone, Copy, PartialEq, Eq, Structural)]
pub enum Command {
    /// One column to the left.
    Left,
    /// One column to the right.
    Right,
    /// One row down, on request.
    Down,
    /// A quarter turn clockwise.
    Rotate,
    /// One row down, by the clock: a block that cannot fall locks.
    Tick,
}

/// What a step did.
#[derive(Debug, Clone, Copy, PartialEq, Eq, Structural)]
pub enum Outcome {
    /// The game was over already; nothing changed.
    Ignored,
    /// The block took the move.
    Moved,
    /// The move was not open to the block; nothing changed.
    Rejected,
    /// The block locked, `cleared` rows went, and the next block spawned.
    Locked { cleared: usize },
    /// As `Locked`, but the next block collided where it spawned: the game is
    /// over.
    GameOver { cleared: usize },
}

/// A board, the block falling on it, and whether the game has ended.
#[derive(Debug)]
pub struct Game {
    pub board: Board,
    pub piece: Block,
    pub over: bool,
}

/// The displacement that a command asks for; a turn displaces nothing.
pub open spec fn displacement(command: Command) -> (int, int) {
    match command {
        Command::Left => (-1, 0),
        Command::Right => (1, 0),
        Command::Down => (0, 1),
        Command::Tick => (0, 1),
        Command::Rotate => (0, 0),
    }
}

impl Game {
    /// `cells` lie on the board and collide with nothing.
    pub open spec fn admits(self, cells: Seq<Point>) -> bool {
        self.board.encloses(cells) && !self.board.touches(cells)
    }

    /// Where the block would be after a shift by `(dx, dy)`, if the board
    /// admits it there.
    pub open spec fn shift_target(self, dx: int, dy: int) -> Option<Seq<Point>> {
        let cells = self.piece@.cells;
        if shift_fits(cells, dx, dy) && shift_non_negative(cells, dx, dy) && self.admits(
            shifted(cells, dx, dy),
        ) {
            Some(shifted(cells, dx, dy))
        } else {
            None
        }
    }

    /// Where the block would be after a quarter turn, if the board admits it
    /// there. A square turns onto itself.
    pub open spec fn turn_target(self) -> Option<Seq<Point>> {
        let cells = self.piece@.cells;
        if self.piece@.shape == BlockShape::Square {
            if self.admits(cells) {
                Some(cells)
            } else {
                None
            }
        } else if turn_fits(cells) && turn_non_negative(cells) && self.admits(turned(cells)) {
            Some(turned(cells))
        } else {
            None
        }
    }

    /// The cells that `command` would move the block to, if that move is open.
    pub open spec fn target(self, command: Command) -> Option<Seq<Point>> {
        match command {
            Command::Rotate => self.turn_target(),
            _ => self.shift_target(displacement(command).0, displacement(command).1),
        }
    }

    /// The board is well formed and wide and tall enough for every shape to
    /// spawn on it; the block lies on the board; and while the game runs the
    /// block collides with nothing.
    pub open spec fn wf(self) -> bool {
        &&& self.board.wf()
        &&& self.board.x_dim >= 8
        &&& self.board.y_dim >= 3
        &&& self.piece@.cells.len() == 4
        &&& self.board.encloses(self.piece@.cells)
        &&& !self.over ==> !self.board.touches(self.piece@.cells)
    }

    /// `self` is `before` with the block moved to `cells` and nothing else
    /// changed.
    pub open spec fn is_move_of(self, before: Game, cells: Seq<Point>) -> bool {
        &&& self.board == before.board
        &&& self.over == before.over
        &&& self.piece@.shape == before.piece@.shape
        &&& self.piece@.cells == cells
    }

    /// `self` is `before` after its block has locked: the block is placed,
    /// the `cleared` complete rows are gone, a block of shape `next` stands at
    /// the spawn point, and the game is over iff that block collides.
    pub open spec fn is_lock_of(self, before: Game, next: BlockShape, cleared: int) -> bool {
        &&& exists|placed: Board|
            {
                &&& #[trigger] placed.is_placement_of(before.board, before.piece@.cells)
                &&& cleared == placed.complete_rows()
                &&& self.board.is_clearing_of(placed)
            }
        &&& self.piece@.shape == next
        &&& is_shift_of(self.piece@.cells, offsets(next), SPAWN_X as int, SPAWN_Y as int)
        &&& self.over == self.board.touches(self.piece@.cells)
    }

    /// A new game on an empty board of `x_dim` columns and `y_dim` rows, with
    /// a block of shape `first` at the spawn point. The game is over at once
    /// if that block collides.
    pub fn new(x_dim: usize, y_dim: usize, first: BlockShape) -> (game: Game)
        requires
            x_dim <= i32::MAX,
            y_dim <= i32::MAX,
        ensures
            game.board.x_dim == x_dim,
            game.board.y_dim == y_dim,
            game.board.filled@ == Seq::<Point>::empty(),
            game.piece@.shape == first,
            is_shift_of(game.piece@.cells, offsets(first), SPAWN_X as int, SPAWN_Y as int),
            game.over == game.board.touches(game.piece@.cells),
            x_dim >= 8 && y_dim >= 3 ==> game.wf() && !game.over,
    {
        let board = Board::new(x_dim, y_dim);
        let piece = Block::new(Point::new(SPAWN_X, SPAWN_Y), first);
        let over = board.block_touches(&piece);
        proof {
            if x_dim >= 8 && y_dim >= 3 {
                let cells = piece@.cells;
                assert forall|i: int| 0 <= i < cells.len() implies 0 <= (#[trigger] cells[i]).x
                    < board.x_dim && 0 <= cells[i].y < board.y_dim && !board.blocks(cells[i]) by {
                    assert(0 <= offsets(first)[i].x <= 3 && 0 <= offsets(first)[i].y <= 2);
                }
            }
        }
        Game { board, piece, over }
    }

    /// The block shifted by `(dx, dy)`, if the board admits it there.
    fn try_shift(&self, dx: i32, dy: i32) -> (moved: Option<Block>)
        ensures
            moved is Some <==> self.shift_target(dx as int, dy as int) is Some,
            moved matches Some(b) ==> b@.shape == self.piece@.shape && Some(b@.cells)
                == self.shift_target(dx as int, dy as int),
    {
        if !self.piece.translation_fits(dx, dy) {
            return None;
        }
        match self.piece.translate(dx, dy) {
            Err(_) => None,
            Ok(moved) => {
                assert(moved@.cells =~= shifted(self.piece@.cells, dx as int, dy as int));
                if self.board.within_bounds(&moved) && !self.board.block_touches(&moved) {
                    Some(moved)
                } else {
                    None
                }
            },
        }
    }

    /// The block after a quarter turn, if the board admits it there.
    fn try_turn(&self) -> (moved: Option<Block>)
        ensures
            moved is Some <==> self.turn_target() is Some,
            moved matches Some(b) ==> b@.shape == self.piece@.shape && Some(b@.cells)
                == self.turn_target(),
    {
        if !self.piece.rotation_fits() {
            return None;
        }
        match self.piece.rotate() {
            Err(_) => None,
            Ok(moved) => {
                proof {
                    if self.piece@.shape != BlockShape::Square {
                        assert(moved@.cells =~= turned(self.piece@.cells));
                    }
                }
                if self.board.within_bounds(&moved) && !self.board.block_touches(&moved) {
                    Some(moved)
                } else {
                    None
                }
            },
        }
    }

    /// Places the block, clears the complete rows and spawns a block of shape
    /// `next`. Returns the number of rows cleared.
    fn lock(&mut self, next: BlockShape) -> (cleared: usize)
        requires
            !old(self).over,
        ensures
            final(self).is_lock_of(*old(self), next, cleared as int),
            old(self).wf() ==> final(self).wf(),
    {
        self.board.place_block(&self.piece);
        let ghost placed = self.board;
        let cleared = self.board.clear_board();
        self.piece = Block::new(Point::new(SPAWN_X, SPAWN_Y), next);
        self.over = self.board.block_touches(&self.piece);
        proof {
            assert(placed.is_placement_of(old(self).board, old(self).piece@.cells));
            if old(self).wf() {
                let cells = self.piece@.cells;
                assert forall|i: int| 0 <= i < cells.len() implies 0 <= (#[trigger] cells[i]).x
                    < self.board.x_dim && 0 <= cells[i].y < self.board.y_dim by {
                    assert(0 <= offsets(next)[i].x <= 3 && 0 <= offsets(next)[i].y <= 2);
                }
            }
        }
        cleared
    }

    /// Advances the game by one command.
    ///
    /// Once the game is over nothing changes any more. Otherwise a move that
    /// the board admits is taken and any other move is turned down, with one
    /// exception: on `Tick` a block that cannot fall locks instead. `next` is
    /// the shape of the block that spawns then; it is not looked at otherwise.
    pub fn step(&mut self, command: Command, next: BlockShape) -> (outcome: Outcome)
        ensures
            old(self).over ==> outcome == Outcome::Ignored && final(self).is_move_of(
                *old(self),
                old(self).piece@.cells,
            ),
            !old(self).over ==> match old(self).target(command) {
                Some(cells) => outcome == Outcome::Moved && final(self).is_move_of(
                    *old(self),
                    cells,
                ),
                None => if command == Command::Tick {
                    match outcome {
                        Outcome::Locked { cleared } => !final(self).over && final(self).is_lock_of(
                            *old(self),
                            next,
                            cleared as int,
                        ),
                        Outcome::GameOver { cleared } => final(self).over && final(self).is_lock_of(
                            *old(self),
                            next,
                            cleared as int,
                        ),
                        _ => false,
                    }
                } else {
                    outcome == Outcome::Rejected && final(self).is_move_of(
                        *old(self),
                        old(self).piece@.cells,
                    )
                },
            },
            old(self).wf() ==> final(self).wf(),
    {
        if self.over {
            return Outcome::Ignored;
        }
        let moved = match command {
            Command::Left => self.try_shift(-1, 0),
            Command::Right => self.try_shift(1, 0),
            Command::Down => self.try_shift(0, 1),
            Command::Tick => self.try_shift(0, 1),
            Command::Rotate => self.try_turn(),
        };
        match moved {
            Some(piece) => {
                self.piece = piece;
                Outcome::Moved
            },
            None => {
                if command == Command::Tick {
                    let cleared = self.lock(next);
                    if self.over {
                        Outcome::GameOver { cleared }
                    } else {
                        Outcome::Locked { cleared }
                    }
                } else {
                    Outcome::Rejected
                }
            },
        }
    }
}

} // verus!
