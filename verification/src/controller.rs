//! A front door for embedding hosts: operations keyed by plain numbers
//! and strings, so a terminal loop or a browser binding can drive the
//! game without knowing its types. Directions arrive as integer codes:
//! 0 is left, 1 right, 2 up, 3 down.

use crate::game::Game;
use crate::render::{board_text, dec_str, push_decimal};
use crate::row::zero_row;
use crate::tile::{move_ok, moved, Direction};
use vstd::prelude::*;
use vstd::string::StringExecFns;

verus! {

/// The banner printed under the board, ending where the step count goes.
pub open spec fn control_text() -> Seq<char> {
    "    ============= 2048 ============= \n\r
    UP-DOWN-RIGHT-LEFT: direction \n\r
    k-j-h-l: direction \n\r
    n: new game \n\r
    ================================ \n\r
    Current steps:  "@
}

/// A game session ready to be driven by integer direction codes.
pub struct GameController {
    game: Game,
}

impl GameController {
    /// The tile values of the controlled game's board.
    pub closed spec fn grid(self) -> Seq<int> {
        self.game.grid()
    }

    /// The step counter: one step per successful tile spawn since the
    /// last new game.
    pub closed spec fn steps_spec(self) -> int {
        self.game.steps_spec()
    }

    pub closed spec fn wf(self) -> bool {
        self.game.wf()
    }

    /// A well-formed controller always holds a grid of exactly 16 cells.
    pub proof fn lemma_wf_len(self)
        requires
            self.wf(),
        ensures
            self.grid().len() == 16,
    {
        self.game.lemma_wf_len();
    }

    /// A controller over a fresh game: empty board, zero steps taken.
    pub fn new() -> (controller: GameController)
        ensures
            controller.wf(),
            controller.grid() == zero_row(16),
            controller.steps_spec() == 0,
    {
        let game = Game::new();
        GameController { game }
    }

    /// Start a game and hand back the rendered board.
    pub fn run(&mut self) -> (text: String)
        requires
            old(self).wf(),
        ensures
            final(self).wf(),
            final(self).steps_spec() == 0,
            exists|i: int|
                0 <= i < 16 && (final(self).grid() == zero_row(16).update(i, 2)
                    || final(self).grid() == zero_row(16).update(i, 4)),
            text@ == board_text(final(self).grid()),
    {
        self.game.start_game();
        self.game.get_board().draw()
    }

    /// The number of successful spawns since the last new game.
    pub fn get_steps(&self) -> (steps: u32)
        ensures
            steps as int == self.steps_spec(),
    {
        self.game.get_steps()
    }

    /// Start a new game, clearing the step counter.
    pub fn start_new_game(&mut self)
        requires
            old(self).wf(),
        ensures
            final(self).wf(),
            final(self).steps_spec() == 0,
            exists|i: int|
                0 <= i < 16 && (final(self).grid() == zero_row(16).update(i, 2)
                    || final(self).grid() == zero_row(16).update(i, 4)),
    {
        self.game.start_game();
    }

    /// Spawn a tile; true exactly when the board had an empty cell, and
    /// the step counter advances exactly on success.
    pub fn next(&mut self) -> (spawned: bool)
        requires
            old(self).wf(),
            old(self).steps_spec() < u32::MAX as int,
        ensures
            final(self).wf(),
            spawned == exists|i: int| 0 <= i < 16 && old(self).grid()[i] == 0,
            !spawned ==> final(self).grid() == old(self).grid() && final(self).steps_spec() == old(
                self,
            ).steps_spec(),
            spawned ==> final(self).steps_spec() == old(self).steps_spec() + 1 && exists|i: int|
                0 <= i < 16 && old(self).grid()[i] == 0
                    && (final(self).grid() == old(self).grid().update(i, 2)
                        || final(self).grid() == old(self).grid().update(i, 4)),
    {
        let spawned = self.game.next();
        proof {
            if spawned {
                let w = choose|i: int|
                    0 <= i < 16 && old(self).grid()[i] == 0 && (self.grid() == old(
                        self,
                    ).grid().update(i, 2) || self.grid() == old(self).grid().update(i, 4));
                assert(0 <= w < 16 && old(self).grid()[w] == 0 && (self.grid() == old(
                    self,
                ).grid().update(w, 2) || self.grid() == old(self).grid().update(w, 4)));
            }
        }
        spawned
    }

    /// Move the tiles by an integer direction code; a code outside 0 to 3
    /// is ignored.
    pub fn action(&mut self, direction: i32)
        requires
            old(self).wf(),
            direction == 0 ==> move_ok(old(self).grid(), Direction::Left),
            direction == 1 ==> move_ok(old(self).grid(), Direction::Right),
            direction == 2 ==> move_ok(old(self).grid(), Direction::Up),
            direction == 3 ==> move_ok(old(self).grid(), Direction::Down),
        ensures
            final(self).wf(),
            final(self).steps_spec() == old(self).steps_spec(),
            direction == 0 ==> final(self).grid() == moved(old(self).grid(), Direction::Left),
            direction == 1 ==> final(self).grid() == moved(old(self).grid(), Direction::Right),
            direction == 2 ==> final(self).grid() == moved(old(self).grid(), Direction::Up),
            direction == 3 ==> final(self).grid() == moved(old(self).grid(), Direction::Down),
            !(0 <= direction <= 3) ==> final(self).grid() == old(self).grid(),
    {
        match direction {
            0 => self.game.action(Direction::Left),
            1 => self.game.action(Direction::Right),
            2 => self.game.action(Direction::Up),
            3 => self.game.action(Direction::Down),
            _ => {},
        }
    }

    /// Whether the move named by an integer direction code keeps every
    /// merged value within a 16-bit tile: the executable test for
    /// `action`'s precondition. A code outside 0 to 3 moves nothing, so
    /// it always fits.
    pub fn action_fits(&self, direction: i32) -> (ok: bool)
        requires
            self.wf(),
        ensures
            ok == if direction == 0 {
                move_ok(self.grid(), Direction::Left)
            } else if direction == 1 {
                move_ok(self.grid(), Direction::Right)
            } else if direction == 2 {
                move_ok(self.grid(), Direction::Up)
            } else if direction == 3 {
                move_ok(self.grid(), Direction::Down)
            } else {
                true
            },
    {
        match direction {
            0 => self.game.move_fits(Direction::Left),
            1 => self.game.move_fits(Direction::Right),
            2 => self.game.move_fits(Direction::Up),
            3 => self.game.move_fits(Direction::Down),
            _ => true,
        }
    }

    /// The rendered board, the control banner, and the step count.
    pub fn render(&self) -> (text: String)
        requires
            self.wf(),
        ensures
            text@ == board_text(self.grid()) + control_text() + dec_str(self.steps_spec())
                + "\n\r"@,
    {
        let mut text = self.game.get_board().draw();
        text.append(
            "    ============= 2048 ============= \n\r
    UP-DOWN-RIGHT-LEFT: direction \n\r
    k-j-h-l: direction \n\r
    n: new game \n\r
    ================================ \n\r
    Current steps:  ",
        );
        push_decimal(&mut text, self.game.get_steps());
        text.append("\n\r");
        text
    }
}

} // verus!
