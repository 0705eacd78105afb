//! Walking the cells of a maze row by row, west to east and south to north.

use vstd::prelude::*;
use vstd::arithmetic::div_mod::lemma_fundamental_div_mod_converse;
use crate::grid::{Maze, MazeCell};

verus! {

/// The cell that comes after `i` others in row-major order.
pub open spec fn cell_at(width: nat, i: int) -> MazeCell {
    MazeCell { x: (i % width as int) as u32, y: (i / width as int) as u32 }
}

/// Every cell of a `width` x `height` grid: `(0,0), (1,0), ..`, then the next row.
pub open spec fn row_major_cells(width: nat, height: nat) -> Seq<MazeCell> {
    Seq::new(width * height, |i: int| cell_at(width, i))
}

/// The cell in column `x` of row `y` comes after `y * width + x` others.
pub proof fn lemma_cell_at(width: nat, x: int, y: int)
    requires
        0 <= x < width <= u32::MAX,
        0 <= y <= u32::MAX,
    ensures
        cell_at(width, y * width + x) == (MazeCell { x: x as u32, y: y as u32 }),
{
    lemma_fundamental_div_mod_converse(y * width + x, width as int, y, x);
}

/// The `i`-th cell of a grid lies in it, in column `i % width` of row `i / width`.
pub proof fn lemma_cell_in_grid(width: nat, height: nat, i: int)
    requires
        1 <= width <= u32::MAX,
        1 <= height <= u32::MAX,
        0 <= i < width * height,
    ensures
        cell_at(width, i).x == i % (width as int),
        cell_at(width, i).y == i / (width as int),
        0 <= i % (width as int) < width,
        0 <= i / (width as int) < height,
        i == (i / (width as int)) * width + i % (width as int),
{
    let w = width as int;
    let h = height as int;
    vstd::arithmetic::div_mod::lemma_fundamental_div_mod(i, w);
    assert(0 <= i % w < w);
    let q = i / w;
    assert(w * q == q * w) by (nonlinear_arith);
    assert(0 <= q < h) by (nonlinear_arith)
        requires
            i == q * w + i % w,
            0 <= i % w < w,
            0 <= i < w * h,
            w >= 1,
    ;
}

/// A cursor over the cells of a maze. Its view is the cells still to come.
pub struct MazeIterator {
    current_x: u32,
    current_y: u32,
    max_x: u32,
    max_y: u32,
}

impl View for MazeIterator {
    type V = Seq<MazeCell>;

    closed spec fn view(&self) -> Seq<MazeCell> {
        row_major_cells((self.max_x + 1) as nat, (self.max_y + 1) as nat).skip(
            self.current_y * (self.max_x + 1) + self.current_x,
        )
    }
}

impl MazeIterator {
    /// The cursor stays inside the grid or stands just behind its last cell.
    pub closed spec fn wf(&self) -> bool {
        &&& self.max_x < u32::MAX
        &&& self.max_y < u32::MAX
        &&& self.current_x <= self.max_x
        &&& self.current_y <= self.max_y + 1
        &&& self.current_y == self.max_y + 1 ==> self.current_x == 0
    }

    /// A cursor before the first cell of `maze`.
    pub fn new(maze: &Maze) -> (cursor: MazeIterator)
        requires
            maze.wf(),
        ensures
            cursor.wf(),
            cursor@ == row_major_cells(maze@.width, maze@.height),
    {
        let cursor = MazeIterator {
            current_x: 0,
            current_y: 0,
            max_x: maze.width() - 1,
            max_y: maze.height() - 1,
        };
        assert(cursor@ =~= row_major_cells(maze@.width, maze@.height));
        cursor
    }

    /// Hands out the next cell and moves on; `None` once every cell was handed out.
    pub fn next(&mut self) -> (cell: Option<MazeCell>)
        requires
            old(self).wf(),
        ensures
            final(self).wf(),
            match cell {
                Some(c) => old(self)@.len() > 0 && c == old(self)@[0] && final(self)@ == old(
                    self,
                )@.skip(1),
                None => old(self)@.len() == 0 && final(self)@ == old(self)@,
            },
    {
        let ghost w = (self.max_x + 1) as int;
        let ghost h = (self.max_y + 1) as int;
        let ghost all = row_major_cells(w as nat, h as nat);
        let ghost at = self.current_y * w + self.current_x;
        if self.current_y > self.max_y {
            assert(at == w * h) by (nonlinear_arith)
                requires
                    at == self.current_y * w + self.current_x,
                    self.current_y == h,
                    self.current_x == 0,
            ;
            return None;
        }
        proof {
            assert(0 <= at < w * h && at + 1 == self.current_y * w + self.current_x + 1 && (
            self.current_y + 1) * w == self.current_y * w + w) by (nonlinear_arith)
                requires
                    at == self.current_y * w + self.current_x,
                    0 <= self.current_y < h,
                    0 <= self.current_x < w,
            ;
            lemma_cell_at(w as nat, self.current_x as int, self.current_y as int);
            assert(all.skip(at).skip(1) =~= all.skip(at + 1));
        }
        let x = self.current_x;
        let y = self.current_y;
        if self.current_x < self.max_x {
            self.current_x += 1;
        } else {
            self.current_x = 0;
            self.current_y += 1;
        }
        Some(MazeCell::new(x, y))
    }
}

} // verus!
