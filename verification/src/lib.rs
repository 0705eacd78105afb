//! Rectangular grid mazes: a flat wall store with closed-form wall lookup,
//! binary-tree and sidewinder carving, and a box-drawing text rendering.
//!
//! Cell `(x, y)` has `x` growing eastwards and `y` growing northwards. For a
//! 3x3 grid the cells and wall slots are numbered as follows.
//!
//! ```text
//! +---+---+---+
//! | 02| 12| 22|      vertical walls      horizontal walls
//! +---+---+---+         8 11
//! | 01| 11| 21|         7 10                3 4 5
//! +---+---+---+         6 9                 0 1 2
//! | 00| 10| 20|
//! +---+---+---+
//! ```

pub mod carve;
pub mod cells;
pub mod grid;
pub mod perfect;
pub mod random;
pub mod render;
pub mod runs;

pub use cells::MazeIterator;
pub use grid::{Grid, Maze, MazeCell, MazeError, MovementOptions, Wall};
pub use render::get_corner;
