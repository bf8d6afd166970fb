//! The game session: one board of tiles and a step counter that counts
//! successful tile spawns since the last new game.

use crate::row::{ints, zero_row};
use crate::tile::{move_ok, moved, Board, Direction};
use vstd::prelude::*;

verus! {

/// A game session. It exclusively owns its board; the step counter starts
/// at 0, advances once per successful spawn, and returns to 0 on a new
/// game.
pub struct Game {
    board: Board,
    steps: u32,
}

impl Game {
    /// The tile values of the session's board.
    pub closed spec fn grid(self) -> Seq<int> {
        self.board.grid()
    }

    /// The step counter.
    pub closed spec fn steps_spec(self) -> int {
        self.steps as int
    }

    pub closed spec fn wf(self) -> bool {
        self.board.wf()
    }

    /// A well-formed session always holds a grid of exactly 16 cells.
    pub proof fn lemma_wf_len(self)
        requires
            self.wf(),
        ensures
            self.grid().len() == 16,
    {
        self.board.lemma_wf_len();
    }

    /// A new session over an empty board, zero steps taken.
    pub fn new() -> (game: Game)
        ensures
            game.wf(),
            game.grid() == zero_row(16),
            game.steps_spec() == 0,
    {
        let board: Board = Default::default();
        Game { board, steps: 0 }
    }

    /// A session over the given 16 tile values, zero steps taken.
    pub fn new_with_values(values: Vec<u16>) -> (game: Game)
        requires
            values@.len() == 16,
        ensures
            game.wf(),
            game.grid() == ints(values@),
            game.steps_spec() == 0,
    {
        Game { board: Board::new(values), steps: 0 }
    }

    /// Clear the board, reset the step counter, and spawn the first tile.
    pub fn start_game(&mut self)
        requires
            old(self).wf(),
        ensures
            final(self).wf(),
            final(self).steps_spec() == 0,
            exists|i: int|
                0 <= i < 16 && (final(self).grid() == zero_row(16).update(i, 2)
                    || final(self).grid() == zero_row(16).update(i, 4)),
    {
        self.reset_game();
        proof {
            assert(zero_row(16)[0] == 0);
        }
        self.board.generate_new_tile();
    }

    /// Move the tiles of the board in the given direction.
    pub fn action(&mut self, dir: Direction)
        requires
            old(self).wf(),
            move_ok(old(self).grid(), dir),
        ensures
            final(self).wf(),
            final(self).grid() == moved(old(self).grid(), dir),
            final(self).steps_spec() == old(self).steps_spec(),
    {
        match dir {
            Direction::Up => self.board.move_up(),
            Direction::Down => self.board.move_down(),
            Direction::Left => self.board.move_left(),
            Direction::Right => self.board.move_right(),
        }
    }

    /// Whether a move in direction `dir` keeps every merged value within
    /// a 16-bit tile: the executable test for `action`'s precondition.
    pub fn move_fits(&self, dir: Direction) -> (ok: bool)
        requires
            self.wf(),
        ensures
            ok == move_ok(self.grid(), dir),
    {
        self.board.move_fits(dir)
    }

    /// The session's board.
    pub fn get_board(&self) -> (board: &Board)
        ensures
            board.grid() == self.grid(),
            board.wf() == self.wf(),
    {
        &self.board
    }

    /// The number of successful spawns since the last new game.
    pub fn get_steps(&self) -> (steps: u32)
        ensures
            steps as int == self.steps_spec(),
    {
        self.steps
    }

    /// Spawn a tile and, on success, count one more step. Spawning
    /// succeeds exactly when the board has an empty cell.
    pub fn next(&mut self) -> (spawned: bool)
        requires
            old(self).wf(),
            old(self).steps_spec() < u32::MAX as int,
        ensures
            final(self).wf(),
            spawned == exists|i: int| 0 <= i < 16 && old(self).grid()[i] == 0,
            !spawned ==> final(self).grid() == old(self).grid()
                && final(self).steps_spec() == old(self).steps_spec(),
            spawned ==> final(self).steps_spec() == old(self).steps_spec() + 1 && exists|i: int|
                0 <= i < 16 && old(self).grid()[i] == 0
                    && (final(self).grid() == old(self).grid().update(i, 2)
                        || final(self).grid() == old(self).grid().update(i, 4)),
    {
        let spawned = self.board.generate_new_tile();
        self.steps += if spawned {
            1
        } else {
            0
        };
        proof {
            if spawned {
                let w = choose|i: int|
                    0 <= i < 16 && old(self).grid()[i] == 0 && (self.grid() == old(
                        self,
                    ).grid().update(i, 2) || self.grid() == old(self).grid().update(i, 4));
                assert(0 <= w < 16 && old(self).grid()[w] == 0 && (self.grid() == old(
                    self,
                ).grid().update(w, 2) || self.grid() == old(self).grid().update(w, 4)));
            }
        }
        spawned
    }

    /// Clear the board and the step counter.
    fn reset_game(&mut self)
        requires
            old(self).wf(),
        ensures
            final(self).wf(),
            final(self).grid() == zero_row(16),
            final(self).steps_spec() == 0,
    {
        self.steps = 0;
        self.board.reset();
    }
}

} // verus!
