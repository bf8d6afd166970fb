//! The 4 x 4 board: sixteen tile values in row-major order, moved in any
//! of the four directions and refilled with randomly spawned tiles.
//!
//! Horizontal moves apply the row transform to each of the four rows;
//! vertical moves transpose the grid, move horizontally, and transpose
//! back, so one merge routine serves all four directions.

use crate::render::{board_text, push_cell, row_text};
use crate::row::{
    fits_u16, ints, is_tile, left_slide_fits, move_row_left, move_row_right, right_slide_fits,
    slide_left, slide_right, zero_row,
};
use vstd::prelude::*;
use vstd::string::StringExecFns;

verus! {

/// One of the four legal move directions.
#[derive(Clone, Copy)]
pub enum Direction {
    Left,
    Right,
    Up,
    Down,
}

/// The row `r` of a row-major 4 x 4 grid.
pub open spec fn row_of(g: Seq<int>, r: int) -> Seq<int> {
    g.subrange(4 * r, 4 * r + 4)
}

/// The grid with every row slid rightward.
pub open spec fn grid_right(g: Seq<int>) -> Seq<int> {
    slide_right(row_of(g, 0)) + slide_right(row_of(g, 1)) + slide_right(row_of(g, 2))
        + slide_right(row_of(g, 3))
}

/// The grid with every row slid leftward.
pub open spec fn grid_left(g: Seq<int>) -> Seq<int> {
    slide_left(row_of(g, 0)) + slide_left(row_of(g, 1)) + slide_left(row_of(g, 2)) + slide_left(
        row_of(g, 3),
    )
}

/// The grid reflected about its main diagonal: rows become columns.
pub open spec fn transpose_of(g: Seq<int>) -> Seq<int> {
    Seq::new(16, |i: int| g[4 * (i % 4) + i / 4])
}

/// Every row of the grid can slide rightward without leaving `u16`.
pub open spec fn rows_fit_right(g: Seq<int>) -> bool {
    forall|r: int| 0 <= r < 4 ==> fits_u16(slide_right(#[trigger] row_of(g, r)))
}

/// Every row of the grid can slide leftward without leaving `u16`.
pub open spec fn rows_fit_left(g: Seq<int>) -> bool {
    forall|r: int| 0 <= r < 4 ==> fits_u16(slide_left(#[trigger] row_of(g, r)))
}

/// The merged values of a move in direction `dir` stay within `u16`.
pub open spec fn move_ok(g: Seq<int>, dir: Direction) -> bool {
    match dir {
        Direction::Left => rows_fit_left(g),
        Direction::Right => rows_fit_right(g),
        Direction::Up => rows_fit_left(transpose_of(g)),
        Direction::Down => rows_fit_right(transpose_of(g)),
    }
}

/// The grid after a move in direction `dir`.
pub open spec fn moved(g: Seq<int>, dir: Direction) -> Seq<int> {
    match dir {
        Direction::Left => grid_left(g),
        Direction::Right => grid_right(g),
        Direction::Up => transpose_of(grid_left(transpose_of(g))),
        Direction::Down => transpose_of(grid_right(transpose_of(g))),
    }
}

pub proof fn lemma_grid_right_index(g: Seq<int>, r: int, c: int)
    requires
        g.len() == 16,
        0 <= r < 4,
        0 <= c < 4,
    ensures
        grid_right(g).len() == 16,
        grid_right(g)[4 * r + c] == slide_right(row_of(g, r))[c],
{
    crate::row::lemma_slide_right_len(row_of(g, 0));
    crate::row::lemma_slide_right_len(row_of(g, 1));
    crate::row::lemma_slide_right_len(row_of(g, 2));
    crate::row::lemma_slide_right_len(row_of(g, 3));
}

pub proof fn lemma_grid_left_index(g: Seq<int>, r: int, c: int)
    requires
        g.len() == 16,
        0 <= r < 4,
        0 <= c < 4,
    ensures
        grid_left(g).len() == 16,
        grid_left(g)[4 * r + c] == slide_left(row_of(g, r))[c],
{
    crate::row::lemma_slide_left_len(row_of(g, 0));
    crate::row::lemma_slide_left_len(row_of(g, 1));
    crate::row::lemma_slide_left_len(row_of(g, 2));
    crate::row::lemma_slide_left_len(row_of(g, 3));
}

proof fn lemma_grid_right_tiles(g: Seq<int>)
    requires
        g.len() == 16,
        forall|i: int| 0 <= i < 16 ==> is_tile(#[trigger] g[i]),
    ensures
        grid_right(g).len() == 16,
        forall|i: int| 0 <= i < 16 ==> is_tile(#[trigger] grid_right(g)[i]),
{
    lemma_grid_right_index(g, 0, 0);
    assert forall|i: int| 0 <= i < 16 implies is_tile(#[trigger] grid_right(g)[i]) by {
        let r = i / 4;
        let c = i % 4;
        lemma_grid_right_index(g, r, c);
        assert forall|k: int| 0 <= k < row_of(g, r).len() implies is_tile(
            #[trigger] row_of(g, r)[k],
        ) by {
            assert(row_of(g, r)[k] == g[4 * r + k]);
        }
        crate::row::lemma_slide_right_tiles(row_of(g, r));
        assert(grid_right(g)[4 * r + c] == slide_right(row_of(g, r))[c]);
        assert(i == 4 * r + c);
    }
}

proof fn lemma_grid_left_tiles(g: Seq<int>)
    requires
        g.len() == 16,
        forall|i: int| 0 <= i < 16 ==> is_tile(#[trigger] g[i]),
    ensures
        grid_left(g).len() == 16,
        forall|i: int| 0 <= i < 16 ==> is_tile(#[trigger] grid_left(g)[i]),
{
    lemma_grid_left_index(g, 0, 0);
    assert forall|i: int| 0 <= i < 16 implies is_tile(#[trigger] grid_left(g)[i]) by {
        let r = i / 4;
        let c = i % 4;
        lemma_grid_left_index(g, r, c);
        assert forall|k: int| 0 <= k < row_of(g, r).len() implies is_tile(
            #[trigger] row_of(g, r)[k],
        ) by {
            assert(row_of(g, r)[k] == g[4 * r + k]);
        }
        crate::row::lemma_slide_left_tiles(row_of(g, r));
        assert(grid_left(g)[4 * r + c] == slide_left(row_of(g, r))[c]);
        assert(i == 4 * r + c);
    }
}

proof fn lemma_transpose_tiles(g: Seq<int>)
    requires
        g.len() == 16,
        forall|i: int| 0 <= i < 16 ==> is_tile(#[trigger] g[i]),
    ensures
        transpose_of(g).len() == 16,
        forall|i: int| 0 <= i < 16 ==> is_tile(#[trigger] transpose_of(g)[i]),
{
    assert forall|i: int| 0 <= i < 16 implies is_tile(#[trigger] transpose_of(g)[i]) by {
        assert(transpose_of(g)[i] == g[4 * (i % 4) + i / 4]);
    }
}

/// The grid invariant is kept by every move: when every cell holds 0 or
/// a power of two, so does every cell after a move in any direction.
pub proof fn lemma_moved_tiles(g: Seq<int>, dir: Direction)
    requires
        g.len() == 16,
        forall|i: int| 0 <= i < 16 ==> is_tile(#[trigger] g[i]),
    ensures
        moved(g, dir).len() == 16,
        forall|i: int| 0 <= i < 16 ==> is_tile(#[trigger] moved(g, dir)[i]),
{
    match dir {
        Direction::Left => lemma_grid_left_tiles(g),
        Direction::Right => lemma_grid_right_tiles(g),
        Direction::Up => {
            lemma_transpose_tiles(g);
            lemma_grid_left_tiles(transpose_of(g));
            lemma_transpose_tiles(grid_left(transpose_of(g)));
        },
        Direction::Down => {
            lemma_transpose_tiles(g);
            lemma_grid_right_tiles(transpose_of(g));
            lemma_transpose_tiles(grid_right(transpose_of(g)));
        },
    }
}

/// Relies on transpose::transpose_inplace: in a row-major `width` x
/// `height` matrix, the value at row r, column c moves to row c, column r.
#[verifier::external_body]
fn transpose_cells(values: &mut Vec<u16>)
    requires
        old(values)@.len() == 16,
    ensures
        final(values)@.len() == 16,
        forall|i: int|
            0 <= i < 16 ==> #[trigger] final(values)@[i] == old(values)@[4 * (i % 4) + i / 4],
{
    let mut scratch = vec![0u16; 4];
    transpose::transpose_inplace(values.as_mut_slice(), &mut scratch, 4, 4);
}

/// Relies on rand::random: a machine word from the thread-local
/// generator; nothing is assumed about its value.
#[verifier::external_body]
fn random_usize() -> usize {
    rand::random::<usize>()
}

/// The 4 x 4 board, stored row-major: cell (r, c) is at index 4 r + c.
/// Value 0 is an empty cell.
pub struct Board {
    values: Vec<u16>,
}

impl Board {
    /// The tile values as mathematical integers, row-major.
    pub closed spec fn grid(self) -> Seq<int> {
        ints(self.values@)
    }

    /// The board always holds exactly 16 cells.
    pub closed spec fn wf(self) -> bool {
        self.values@.len() == 16
    }

    /// A well-formed board always holds a grid of exactly 16 cells.
    pub proof fn lemma_wf_len(self)
        requires
            self.wf(),
        ensures
            self.grid().len() == 16,
    {
    }

    /// A board over the given 16 tile values.
    pub fn new(val: Vec<u16>) -> (board: Board)
        requires
            val@.len() == 16,
        ensures
            board.wf(),
            board.grid() == ints(val@),
    {
        Board { values: val }
    }

    /// The tile values, row-major.
    pub fn get_values(&self) -> (values: &Vec<u16>)
        ensures
            ints(values@) == self.grid(),
            values@.len() == self.grid().len(),
    {
        &self.values
    }

    /// The row `r` of the grid as a vector of four values.
    fn row_at(&self, r: usize) -> (row: Vec<u16>)
        requires
            self.wf(),
            r < 4,
        ensures
            ints(row@) == row_of(self.grid(), r as int),
            row@.len() == 4,
    {
        let base = 4 * r;
        let mut row: Vec<u16> = Vec::new();
        row.push(self.values[base]);
        row.push(self.values[base + 1]);
        row.push(self.values[base + 2]);
        row.push(self.values[base + 3]);
        proof {
            assert(ints(row@) =~= row_of(self.grid(), r as int));
        }
        row
    }

    /// The column `c` of the grid as a vector of four values: row `c` of
    /// the transposed grid.
    fn col_at(&self, c: usize) -> (col: Vec<u16>)
        requires
            self.wf(),
            c < 4,
        ensures
            ints(col@) == row_of(transpose_of(self.grid()), c as int),
            col@.len() == 4,
    {
        let mut col: Vec<u16> = Vec::new();
        col.push(self.values[c]);
        col.push(self.values[4 + c]);
        col.push(self.values[8 + c]);
        col.push(self.values[12 + c]);
        proof {
            assert(ints(col@) =~= row_of(transpose_of(self.grid()), c as int));
        }
        col
    }

    /// Whether a move in direction `dir` keeps every merged value within
    /// a 16-bit tile: the executable test for the moves' precondition.
    pub fn move_fits(&self, dir: Direction) -> (ok: bool)
        requires
            self.wf(),
        ensures
            ok == move_ok(self.grid(), dir),
    {
        let ghost g = self.grid();
        match dir {
            Direction::Left => {
                let ok = left_slide_fits(&self.row_at(0)) && left_slide_fits(&self.row_at(1))
                    && left_slide_fits(&self.row_at(2)) && left_slide_fits(&self.row_at(3));
                proof {
                    if ok {
                        assert forall|r: int| 0 <= r < 4 implies fits_u16(
                            slide_left(#[trigger] row_of(g, r)),
                        ) by {}
                    }
                }
                ok
            },
            Direction::Right => {
                let ok = right_slide_fits(&self.row_at(0)) && right_slide_fits(&self.row_at(1))
                    && right_slide_fits(&self.row_at(2)) && right_slide_fits(&self.row_at(3));
                proof {
                    if ok {
                        assert forall|r: int| 0 <= r < 4 implies fits_u16(
                            slide_right(#[trigger] row_of(g, r)),
                        ) by {}
                    }
                }
                ok
            },
            Direction::Up => {
                let ok = left_slide_fits(&self.col_at(0)) && left_slide_fits(&self.col_at(1))
                    && left_slide_fits(&self.col_at(2)) && left_slide_fits(&self.col_at(3));
                proof {
                    if ok {
                        assert forall|r: int| 0 <= r < 4 implies fits_u16(
                            slide_left(#[trigger] row_of(transpose_of(g), r)),
                        ) by {}
                    }
                }
                ok
            },
            Direction::Down => {
                let ok = right_slide_fits(&self.col_at(0)) && right_slide_fits(&self.col_at(1))
                    && right_slide_fits(&self.col_at(2)) && right_slide_fits(&self.col_at(3));
                proof {
                    if ok {
                        assert forall|r: int| 0 <= r < 4 implies fits_u16(
                            slide_right(#[trigger] row_of(transpose_of(g), r)),
                        ) by {}
                    }
                }
                ok
            },
        }
    }

    /// Slide every row of the grid in the given horizontal direction.
    fn move_horizontal(&mut self, dir: Direction)
        requires
            old(self).wf(),
            dir is Left || dir is Right,
            dir is Left ==> rows_fit_left(old(self).grid()),
            dir is Right ==> rows_fit_right(old(self).grid()),
        ensures
            final(self).wf(),
            dir is Left ==> final(self).grid() == grid_left(old(self).grid()),
            dir is Right ==> final(self).grid() == grid_right(old(self).grid()),
    {
        let ghost g0: Seq<int> = old(self).grid();
        let ghost target: Seq<int> = if dir is Left {
            grid_left(g0)
        } else {
            grid_right(g0)
        };
        proof {
            lemma_grid_left_index(g0, 0, 0);
            lemma_grid_right_index(g0, 0, 0);
        }
        let mut r: usize = 0;
        while r < 4
            invariant
                r <= 4,
                self.wf(),
                g0.len() == 16,
                target.len() == 16,
                dir is Left || dir is Right,
                dir is Left ==> rows_fit_left(g0) && target == grid_left(g0),
                dir is Right ==> rows_fit_right(g0) && target == grid_right(g0),
                forall|k: int| 4 * r <= k < 16 ==> self.grid()[k] == g0[k],
                forall|k: int| 0 <= k < 4 * r ==> self.grid()[k] == target[k],
            decreases 4 - r,
        {
            let base = 4 * r;
            let row_vec = self.row_at(r);
            proof {
                assert(ints(row_vec@) =~= row_of(g0, r as int));
            }
            let new_row = match dir {
                Direction::Left => move_row_left(&row_vec),
                _ => move_row_right(&row_vec),
            };
            self.values.set(base, new_row[0]);
            self.values.set(base + 1, new_row[1]);
            self.values.set(base + 2, new_row[2]);
            self.values.set(base + 3, new_row[3]);
            proof {
                assert forall|k: int| 0 <= k < 4 * (r + 1) implies self.grid()[k] == target[k] by {
                    if 4 * r <= k {
                        let c = k - 4 * r;
                        if dir is Left {
                            lemma_grid_left_index(g0, r as int, c);
                        } else {
                            lemma_grid_right_index(g0, r as int, c);
                        }
                        assert(self.grid()[k] == ints(new_row@)[c]);
                    }
                }
            }
            r += 1;
        }
        proof {
            assert(self.grid() =~= target);
        }
    }

    /// Reflect the grid about its main diagonal, turning rows into columns.
    pub fn transpose(&mut self)
        requires
            old(self).wf(),
        ensures
            final(self).wf(),
            final(self).grid() == transpose_of(old(self).grid()),
    {
        transpose_cells(&mut self.values);
        proof {
            assert(self.grid() =~= transpose_of(old(self).grid()));
        }
    }

    /// Slide every column of the grid in the given vertical direction, by
    /// transposing, sliding the rows, and transposing back.
    fn move_vertical(&mut self, dir: Direction)
        requires
            old(self).wf(),
            dir is Up || dir is Down,
            dir is Up ==> rows_fit_left(transpose_of(old(self).grid())),
            dir is Down ==> rows_fit_right(transpose_of(old(self).grid())),
        ensures
            final(self).wf(),
            dir is Up ==> final(self).grid() == transpose_of(
                grid_left(transpose_of(old(self).grid())),
            ),
            dir is Down ==> final(self).grid() == transpose_of(
                grid_right(transpose_of(old(self).grid())),
            ),
    {
        self.transpose();
        match dir {
            Direction::Up => self.move_horizontal(Direction::Left),
            _ => self.move_horizontal(Direction::Right),
        }
        self.transpose();
    }

    /// Slide every column upward.
    pub fn move_up(&mut self)
        requires
            old(self).wf(),
            move_ok(old(self).grid(), Direction::Up),
        ensures
            final(self).wf(),
            final(self).grid() == moved(old(self).grid(), Direction::Up),
    {
        self.move_vertical(Direction::Up);
    }

    /// Slide every column downward.
    pub fn move_down(&mut self)
        requires
            old(self).wf(),
            move_ok(old(self).grid(), Direction::Down),
        ensures
            final(self).wf(),
            final(self).grid() == moved(old(self).grid(), Direction::Down),
    {
        self.move_vertical(Direction::Down);
    }

    /// Slide every row leftward.
    pub fn move_left(&mut self)
        requires
            old(self).wf(),
            move_ok(old(self).grid(), Direction::Left),
        ensures
            final(self).wf(),
            final(self).grid() == moved(old(self).grid(), Direction::Left),
    {
        self.move_horizontal(Direction::Left);
    }

    /// Slide every row rightward.
    pub fn move_right(&mut self)
        requires
            old(self).wf(),
            move_ok(old(self).grid(), Direction::Right),
        ensures
            final(self).wf(),
            final(self).grid() == moved(old(self).grid(), Direction::Right),
    {
        self.move_horizontal(Direction::Right);
    }

    /// Put `value` into the cell at `index`.
    pub fn set_tile_value(&mut self, index: u8, value: u16)
        requires
            old(self).wf(),
            index < 16,
        ensures
            final(self).wf(),
            final(self).grid() == old(self).grid().update(index as int, value as int),
    {
        self.values.set(index as usize, value);
        proof {
            assert(self.grid() =~= old(self).grid().update(index as int, value as int));
        }
    }

    /// Spawn one tile on a randomly chosen empty cell: value 4 with
    /// probability one in five, value 2 otherwise. Fails, changing
    /// nothing, exactly when the board is full.
    pub fn generate_new_tile(&mut self) -> (spawned: bool)
        requires
            old(self).wf(),
        ensures
            final(self).wf(),
            spawned == exists|i: int| 0 <= i < 16 && old(self).grid()[i] == 0,
            !spawned ==> final(self).grid() == old(self).grid(),
            spawned ==> exists|i: int|
                0 <= i < 16 && old(self).grid()[i] == 0 && (final(self).grid() == old(
                    self,
                ).grid().update(i, 2) || final(self).grid() == old(self).grid().update(i, 4)),
    {
        let mut zero_list: Vec<usize> = Vec::new();
        let mut i: usize = 0;
        while i < 16
            invariant
                i <= 16,
                self.wf(),
                self.grid() == old(self).grid(),
                forall|j: int|
                    0 <= j < zero_list@.len() ==> #[trigger] zero_list@[j] < 16 && self.grid()[
                        zero_list@[j] as int
                    ] == 0,
                (exists|k: int| 0 <= k < i && self.grid()[k] == 0) ==> zero_list@.len() > 0,
            decreases 16 - i,
        {
            if self.values[i] == 0 {
                zero_list.push(i);
            }
            i += 1;
        }
        if zero_list.len() > 0 {
            let pick = random_usize() % zero_list.len();
            let idx = zero_list[pick];
            let chance = random_usize();
            let value: u16 = if chance % 5 == 0 {
                4
            } else {
                2
            };
            self.set_tile_value(idx as u8, value);
            proof {
                let ghost w = zero_list@[pick as int] as int;
                assert(old(self).grid()[w] == 0);
                assert(final(self).grid() == old(self).grid().update(w, value as int));
                assert(value as int == 2 || value as int == 4);
            }
            true
        } else {
            false
        }
    }

    /// Append one row of cells, between vertical borders.
    fn push_row(&self, text: &mut String, r: usize)
        requires
            self.wf(),
            r < 4,
        ensures
            final(text)@ == old(text)@ + row_text(self.grid(), r as int),
    {
        let base = 4 * r;
        text.append("   \u{2551}");
        push_cell(text, self.values[base]);
        text.append("\u{2551}");
        push_cell(text, self.values[base + 1]);
        text.append("\u{2551}");
        push_cell(text, self.values[base + 2]);
        text.append("\u{2551}");
        push_cell(text, self.values[base + 3]);
        text.append("\u{2551}\n\r");
        proof {
            assert(text@ =~= old(text)@ + row_text(self.grid(), r as int));
        }
    }

    /// The framed, color-coded text of the whole board.
    pub fn draw(&self) -> (text: String)
        requires
            self.wf(),
        ensures
            text@ == board_text(self.grid()),
    {
        let mut text = String::from_str(
            "   \u{2554}\u{2550}\u{2550}\u{2550}\u{2550}\u{2550}\u{2550}\u{2550}\u{2566}\u{2550}\u{2550}\u{2550}\u{2550}\u{2550}\u{2550}\u{2550}\u{2566}\u{2550}\u{2550}\u{2550}\u{2550}\u{2550}\u{2550}\u{2550}\u{2566}\u{2550}\u{2550}\u{2550}\u{2550}\u{2550}\u{2550}\u{2550}\u{2557}\n\r",
        );
        self.push_row(&mut text, 0);
        text.append(
            "   \u{2560}\u{2550}\u{2550}\u{2550}\u{2550}\u{2550}\u{2550}\u{2550}\u{256c}\u{2550}\u{2550}\u{2550}\u{2550}\u{2550}\u{2550}\u{2550}\u{256c}\u{2550}\u{2550}\u{2550}\u{2550}\u{2550}\u{2550}\u{2550}\u{256c}\u{2550}\u{2550}\u{2550}\u{2550}\u{2550}\u{2550}\u{2550}\u{2563}\n\r",
        );
        self.push_row(&mut text, 1);
        text.append(
            "   \u{2560}\u{2550}\u{2550}\u{2550}\u{2550}\u{2550}\u{2550}\u{2550}\u{256c}\u{2550}\u{2550}\u{2550}\u{2550}\u{2550}\u{2550}\u{2550}\u{256c}\u{2550}\u{2550}\u{2550}\u{2550}\u{2550}\u{2550}\u{2550}\u{256c}\u{2550}\u{2550}\u{2550}\u{2550}\u{2550}\u{2550}\u{2550}\u{2563}\n\r",
        );
        self.push_row(&mut text, 2);
        text.append(
            "   \u{2560}\u{2550}\u{2550}\u{2550}\u{2550}\u{2550}\u{2550}\u{2550}\u{256c}\u{2550}\u{2550}\u{2550}\u{2550}\u{2550}\u{2550}\u{2550}\u{256c}\u{2550}\u{2550}\u{2550}\u{2550}\u{2550}\u{2550}\u{2550}\u{256c}\u{2550}\u{2550}\u{2550}\u{2550}\u{2550}\u{2550}\u{2550}\u{2563}\n\r",
        );
        self.push_row(&mut text, 3);
        text.append(
            "   \u{255a}\u{2550}\u{2550}\u{2550}\u{2550}\u{2550}\u{2550}\u{2550}\u{2569}\u{2550}\u{2550}\u{2550}\u{2550}\u{2550}\u{2550}\u{2550}\u{2569}\u{2550}\u{2550}\u{2550}\u{2550}\u{2550}\u{2550}\u{2550}\u{2569}\u{2550}\u{2550}\u{2550}\u{2550}\u{2550}\u{2550}\u{2550}\u{255d}\n\r",
        );
        proof {
            assert(text@ =~= board_text(self.grid()));
        }
        text
    }

    /// Empty every cell.
    pub fn reset(&mut self)
        requires
            old(self).wf(),
        ensures
            final(self).wf(),
            final(self).grid() == zero_row(16),
    {
        let mut i: usize = 0;
        while i < 16
            invariant
                i <= 16,
                self.wf(),
                forall|k: int| 0 <= k < i ==> #[trigger] self.values@[k] == 0,
            decreases 16 - i,
        {
            self.values.set(i, 0);
            i += 1;
        }
        proof {
            assert(self.grid() =~= zero_row(16));
        }
    }
}

impl Default for Board {
    /// A board with every cell empty.
    fn default() -> (board: Board)
        ensures
            board.wf(),
            board.grid() == zero_row(16),
    {
        let mut values: Vec<u16> = Vec::new();
        let mut i: usize = 0;
        while i < 16
            invariant
                i <= 16,
                values@.len() == i,
                forall|k: int| 0 <= k < i ==> #[trigger] values@[k] == 0,
            decreases 16 - i,
        {
            values.push(0);
            i += 1;
        }
        proof {
            assert(ints(values@) =~= zero_row(16));
        }
        Board { values }
    }
}

} // verus!
