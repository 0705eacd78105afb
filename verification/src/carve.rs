//! Carving passages: the binary-tree and the sidewinder procedure.
//!
//! Both visit the cells in row-major order and decide at each cell, by a coin,
//! which wall to open. The coin and the sidewinder's pick come from the
//! caller; what a procedure does with each outcome is specified exactly.

use vstd::prelude::*;
use crate::cells::{cell_at, lemma_cell_in_grid, row_major_cells, MazeIterator};
use crate::grid::{wall_count, Grid, Maze, MazeCell, MazeError};
use crate::perfect::{binary_tree_is_perfect, open_count, perfect};
use crate::runs::{sidewinder_is_perfect_unless_wasted, sidewinder_wastes};
use crate::random::{any_number, fair_coin};

verus! {

/// The wall opened for `cell`: north if it exists, else east (nothing in the
/// north-east corner).
pub open spec fn open_north_else_east(g: Grid, cell: MazeCell) -> Grid {
    if g.north_wall(cell.x as int, cell.y as int) is Some {
        g.open_north(cell.x as int, cell.y as int)
    } else {
        g.open_east(cell.x as int, cell.y as int)
    }
}

/// The wall opened for `cell`: east if it exists, else north (nothing in the
/// north-east corner).
pub open spec fn open_east_else_north(g: Grid, cell: MazeCell) -> Grid {
    if g.east_wall(cell.x as int, cell.y as int) is Some {
        g.open_east(cell.x as int, cell.y as int)
    } else {
        g.open_north(cell.x as int, cell.y as int)
    }
}

/// One step of the binary-tree procedure: heads prefers north, tails east.
pub open spec fn binary_tree_step(g: Grid, cell: MazeCell, coin: bool) -> Grid {
    if coin {
        open_north_else_east(g, cell)
    } else {
        open_east_else_north(g, cell)
    }
}

/// The grid after the binary-tree procedure has visited the first
/// `coins.len()` cells, with `coins[i]` thrown at the `i`-th cell.
pub open spec fn binary_tree_carve(width: nat, height: nat, coins: Seq<bool>) -> Grid
    decreases coins.len(),
{
    if coins.len() == 0 {
        Grid::closed(width, height)
    } else {
        binary_tree_step(
            binary_tree_carve(width, height, coins.drop_last()),
            cell_at(width, coins.len() - 1),
            coins.last(),
        )
    }
}

/// The state of the sidewinder procedure: the grid, and the run of cells of
/// the current row that have no way north yet.
pub struct Sidewinder {
    pub grid: Grid,
    pub run: Seq<MazeCell>,
}

/// Closing a run: the cell at `pick % run.len()` gets its north wall opened
/// (its east wall in the top row), and the run is emptied.
pub open spec fn close_run(g: Grid, run: Seq<MazeCell>, pick: int) -> Sidewinder {
    Sidewinder { grid: open_north_else_east(g, run[pick % (run.len() as int)]), run: Seq::empty() }
}

/// Extending a run at its last cell `cell`: its east wall is opened; in the
/// rightmost column its north wall is opened instead and the run is emptied.
pub open spec fn extend_run(g: Grid, run: Seq<MazeCell>, cell: MazeCell) -> Sidewinder {
    if g.east_wall(cell.x as int, cell.y as int) is Some {
        Sidewinder { grid: g.open_east(cell.x as int, cell.y as int), run }
    } else {
        Sidewinder { grid: g.open_north(cell.x as int, cell.y as int), run: Seq::empty() }
    }
}

/// One step of the sidewinder procedure: the cell joins the run; heads closes
/// the run at the picked cell, tails extends it.
pub open spec fn sidewinder_step(s: Sidewinder, cell: MazeCell, coin: bool, pick: int)
    -> Sidewinder {
    if coin {
        close_run(s.grid, s.run.push(cell), pick)
    } else {
        extend_run(s.grid, s.run.push(cell), cell)
    }
}

/// The state after the sidewinder procedure has visited the first
/// `coins.len()` cells, with `coins[i]` thrown at the `i`-th cell and
/// `picks[i]` drawn there (read only where the coin shows heads).
pub open spec fn sidewinder_carve(width: nat, height: nat, coins: Seq<bool>, picks: Seq<usize>)
    -> Sidewinder
    decreases coins.len(),
{
    if coins.len() == 0 || picks.len() != coins.len() {
        Sidewinder { grid: Grid::closed(width, height), run: Seq::empty() }
    } else {
        sidewinder_step(
            sidewinder_carve(width, height, coins.drop_last(), picks.drop_last()),
            cell_at(width, coins.len() - 1),
            coins.last(),
            picks.last() as int,
        )
    }
}

/// Whether every cell of the run lies in the grid.
pub open spec fn run_in_grid(g: Grid, run: Seq<MazeCell>) -> bool {
    forall|i: int| 0 <= i < run.len() ==> g.has_cell(#[trigger] run[i].x as int, run[i].y as int)
}

impl Maze {
    /// Opens the north wall of `cell`, or its east wall where there is none.
    fn open_north_else_east(&mut self, cell: MazeCell)
        requires
            old(self).wf(),
            old(self)@.has_cell(cell.x as int, cell.y as int),
        ensures
            final(self).wf(),
            final(self)@ == open_north_else_east(old(self)@, cell),
    {
        let result = self.open_north_wall(cell);
        if result.is_err() {
            let _ = self.open_east_wall(cell);
        }
    }

    /// The binary-tree step at `cell` for a coin already thrown.
    pub fn carve_binary_tree_cell(&mut self, cell: MazeCell, coin: bool)
        requires
            old(self).wf(),
            old(self)@.has_cell(cell.x as int, cell.y as int),
        ensures
            final(self).wf(),
            final(self)@ == binary_tree_step(old(self)@, cell, coin),
    {
        if coin {
            self.open_north_else_east(cell);
        } else {
            let result = self.open_east_wall(cell);
            if result.is_err() {
                let _ = self.open_north_wall(cell);
            }
        }
    }

    /// Closes the run at the cell that `pick` selects.
    pub fn close_sidewinder_run(&mut self, cells_in_run: &mut Vec<MazeCell>, pick: usize)
        requires
            old(self).wf(),
            old(cells_in_run)@.len() > 0,
            run_in_grid(old(self)@, old(cells_in_run)@),
        ensures
            final(self).wf(),
            (Sidewinder { grid: final(self)@, run: final(cells_in_run)@ }) == close_run(
                old(self)@,
                old(cells_in_run)@,
                pick as int,
            ),
    {
        let selected_cell_index = pick % cells_in_run.len();
        let selected_cell = cells_in_run[selected_cell_index];
        cells_in_run.clear();
        self.open_north_else_east(selected_cell);
    }

    /// Extends the run at `cell`, its last member.
    pub fn extend_sidewinder_run(&mut self, cells_in_run: &mut Vec<MazeCell>, cell: MazeCell)
        requires
            old(self).wf(),
            old(self)@.has_cell(cell.x as int, cell.y as int),
        ensures
            final(self).wf(),
            (Sidewinder { grid: final(self)@, run: final(cells_in_run)@ }) == extend_run(
                old(self)@,
                old(cells_in_run)@,
                cell,
            ),
    {
        let result = self.open_east_wall(cell);
        if result.is_err() {
            cells_in_run.clear();
            let _ = self.open_north_wall(cell);
        }
    }

    /// Carves a maze by the binary-tree procedure, throwing `rand_bool` once
    /// per cell.
    pub fn binary_tree_with_rand_fn<F>(width: u32, height: u32, mut rand_bool: F) -> (made: Result<
        Maze,
        MazeError,
    >) where F: FnMut() -> bool
        requires
            wall_count(width as nat, height as nat) <= u32::MAX,
            call_requires(rand_bool, ()),
        ensures
            made is Err <==> width == 0 || height == 0,
            made is Err ==> made == Err::<Maze, MazeError>(MazeError::InvalidDimension),
            made matches Ok(maze) ==> maze.wf() && maze@.width == width && maze@.height == height,
            made matches Ok(maze) ==> exists|coins: Seq<bool>|
                {
                    &&& coins.len() == width * height
                    &&& forall|i: int|
                        0 <= i < coins.len() ==> call_ensures(rand_bool, (), #[trigger] coins[i])
                    &&& maze@ == binary_tree_carve(width as nat, height as nat, coins)
                },
            made matches Ok(maze) ==> perfect(maze@),
    {
        let mut maze = match Maze::new(width, height) {
            Ok(maze) => maze,
            Err(e) => {
                return Err(e);
            },
        };
        let mut maze_iter = MazeIterator::new(&maze);
        let ghost coin_source = rand_bool;
        let ghost coins: Seq<bool> = Seq::empty();
        let ghost cells = row_major_cells(width as nat, height as nat);
        assert(cells.skip(0) =~= cells);
        loop
            invariant
                maze.wf(),
                maze@.width == width,
                maze@.height == height,
                maze_iter.wf(),
                cells == row_major_cells(width as nat, height as nat),
                coins.len() <= cells.len(),
                maze_iter@ == cells.skip(coins.len() as int),
                maze@ == binary_tree_carve(width as nat, height as nat, coins),
                rand_bool == coin_source,
                call_requires(rand_bool, ()),
                forall|i: int|
                    0 <= i < coins.len() ==> call_ensures(rand_bool, (), #[trigger] coins[i]),
            ensures
                coins.len() == width * height,
            decreases cells.len() - coins.len(),
        {
            let cell = match maze_iter.next() {
                Some(cell) => cell,
                None => {
                    break ;
                },
            };
            let ghost at = coins.len() as int;
            proof {
                lemma_cell_in_grid(width as nat, height as nat, at);
                assert(cells.skip(at).skip(1) =~= cells.skip(at + 1));
            }
            let coin = rand_bool();
            maze.carve_binary_tree_cell(cell, coin);
            proof {
                assert(coins.push(coin).drop_last() =~= coins);
                coins = coins.push(coin);
            }
        }
        proof {
            binary_tree_is_perfect(width as nat, height as nat, coins);
        }
        Ok(maze)
    }

    /// Carves a maze by the binary-tree procedure with a fair coin.
    pub fn binary_tree(width: u32, height: u32) -> (made: Result<Maze, MazeError>)
        requires
            wall_count(width as nat, height as nat) <= u32::MAX,
        ensures
            made is Err <==> width == 0 || height == 0,
            made is Err ==> made == Err::<Maze, MazeError>(MazeError::InvalidDimension),
            made matches Ok(maze) ==> maze.wf() && maze@.width == width && maze@.height == height,
            made matches Ok(maze) ==> exists|coins: Seq<bool>|
                {
                    &&& coins.len() == width * height
                    &&& maze@ == binary_tree_carve(width as nat, height as nat, coins)
                },
            made matches Ok(maze) ==> perfect(maze@),
    {
        Self::binary_tree_with_rand_fn(width, height, || -> (coin: bool) { fair_coin() })
    }

    /// Carves a maze by the sidewinder procedure, throwing `rand_bool` once per
    /// cell and drawing from `rand_usize` whenever the coin shows heads.
    pub fn sidewinder_with_rand_fn<F1, F2>(
        width: u32,
        height: u32,
        mut rand_bool: F1,
        mut rand_usize: F2,
    ) -> (made: Result<Maze, MazeError>) where F1: FnMut() -> bool, F2: FnMut() -> usize
        requires
            wall_count(width as nat, height as nat) <= u32::MAX,
            call_requires(rand_bool, ()),
            call_requires(rand_usize, ()),
        ensures
            made is Err <==> width == 0 || height == 0,
            made is Err ==> made == Err::<Maze, MazeError>(MazeError::InvalidDimension),
            made matches Ok(maze) ==> maze.wf() && maze@.width == width && maze@.height == height,
            made matches Ok(maze) ==> exists|coins: Seq<bool>, picks: Seq<usize>|
                {
                    &&& coins.len() == width * height
                    &&& picks.len() == width * height
                    &&& forall|i: int|
                        0 <= i < coins.len() ==> call_ensures(rand_bool, (), #[trigger] coins[i])
                    &&& forall|i: int|
                        0 <= i < coins.len() && coins[i] ==> call_ensures(
                            rand_usize,
                            (),
                            #[trigger] picks[i],
                        )
                    &&& maze@ == sidewinder_carve(width as nat, height as nat, coins, picks).grid
                    &&& perfect(maze@) <==> !sidewinder_wastes(
                        width as nat,
                        height as nat,
                        coins,
                        picks,
                    )
                },
            made matches Ok(maze) ==> open_count(maze@.walls) <= width * height - 1,
    {
        let mut maze = match Maze::new(width, height) {
            Ok(maze) => maze,
            Err(e) => {
                return Err(e);
            },
        };
        let mut maze_iter = MazeIterator::new(&maze);
        let mut cells_in_run: Vec<MazeCell> = Vec::new();
        let ghost coin_source = rand_bool;
        let ghost pick_source = rand_usize;
        let ghost coins: Seq<bool> = Seq::empty();
        let ghost picks: Seq<usize> = Seq::empty();
        let ghost cells = row_major_cells(width as nat, height as nat);
        assert(cells.skip(0) =~= cells);
        assert(cells_in_run@ =~= Seq::empty());
        loop
            invariant
                maze.wf(),
                maze@.width == width,
                maze@.height == height,
                maze_iter.wf(),
                cells == row_major_cells(width as nat, height as nat),
                coins.len() <= cells.len(),
                picks.len() == coins.len(),
                maze_iter@ == cells.skip(coins.len() as int),
                run_in_grid(maze@, cells_in_run@),
                (Sidewinder { grid: maze@, run: cells_in_run@ }) == sidewinder_carve(
                    width as nat,
                    height as nat,
                    coins,
                    picks,
                ),
                rand_bool == coin_source,
                rand_usize == pick_source,
                call_requires(rand_bool, ()),
                call_requires(rand_usize, ()),
                forall|i: int|
                    0 <= i < coins.len() ==> call_ensures(rand_bool, (), #[trigger] coins[i]),
                forall|i: int|
                    0 <= i < coins.len() && coins[i] ==> call_ensures(
                        rand_usize,
                        (),
                        #[trigger] picks[i],
                    ),
            ensures
                coins.len() == width * height,
                picks.len() == width * height,
            decreases cells.len() - coins.len(),
        {
            let cell = match maze_iter.next() {
                Some(cell) => cell,
                None => {
                    break ;
                },
            };
            let ghost at = coins.len() as int;
            proof {
                lemma_cell_in_grid(width as nat, height as nat, at);
                assert(cells.skip(at).skip(1) =~= cells.skip(at + 1));
            }
            cells_in_run.push(cell);
            let coin = rand_bool();
            let mut pick: usize = 0;
            if coin {
                pick = rand_usize();
                maze.close_sidewinder_run(&mut cells_in_run, pick);
            } else {
                maze.extend_sidewinder_run(&mut cells_in_run, cell);
            }
            proof {
                assert(coins.push(coin).drop_last() =~= coins);
                assert(picks.push(pick).drop_last() =~= picks);
                coins = coins.push(coin);
                picks = picks.push(pick);
            }
        }
        proof {
            sidewinder_is_perfect_unless_wasted(width as nat, height as nat, coins, picks);
        }
        Ok(maze)
    }

    /// Carves a maze by the sidewinder procedure with a fair coin and
    /// uniformly drawn picks.
    pub fn sidewinder(width: u32, height: u32) -> (made: Result<Maze, MazeError>)
        requires
            wall_count(width as nat, height as nat) <= u32::MAX,
        ensures
            made is Err <==> width == 0 || height == 0,
            made is Err ==> made == Err::<Maze, MazeError>(MazeError::InvalidDimension),
            made matches Ok(maze) ==> maze.wf() && maze@.width == width && maze@.height == height,
            made matches Ok(maze) ==> exists|coins: Seq<bool>, picks: Seq<usize>|
                {
                    &&& coins.len() == width * height
                    &&& picks.len() == width * height
                    &&& maze@ == sidewinder_carve(width as nat, height as nat, coins, picks).grid
                    &&& perfect(maze@) <==> !sidewinder_wastes(
                        width as nat,
                        height as nat,
                        coins,
                        picks,
                    )
                },
            made matches Ok(maze) ==> open_count(maze@.walls) <= width * height - 1,
    {
        Self::sidewinder_with_rand_fn(
            width,
            height,
            || -> (coin: bool) { fair_coin() },
            || -> (number: usize) { any_number() },
        )
    }
}

} // verus!
