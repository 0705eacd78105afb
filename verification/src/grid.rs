//! The wall store: every interior wall of a `width` x `height` grid in one flat
//! vector, horizontal walls first, found by arithmetic on the cell coordinates.

use vstd::prelude::*;

verus! {

/// The state of one wall between two neighbouring cells.
#[derive(Debug, Copy, Clone, PartialEq, Eq, Structural)]
pub enum Wall {
    Open,
    Closed,
}

/// A cell of the grid, `x` counted from the west edge and `y` from the south edge.
#[derive(Debug, Copy, Clone, PartialEq, Eq, Structural)]
pub struct MazeCell {
    pub x: u32,
    pub y: u32,
}

/// Why an operation on a maze did not take place.
#[derive(Debug, Copy, Clone, PartialEq, Eq, Structural)]
pub enum MazeError {
    /// A maze needs at least one column and one row.
    InvalidDimension,
    /// The wall asked for is the outer edge of the grid.
    EdgeWall,
}

/// The cells that can be walked to from one cell. A direction is `None` where
/// the wall is closed or the grid ends.
#[derive(Debug, Copy, Clone, PartialEq, Eq)]
pub struct MovementOptions {
    pub north: Option<MazeCell>,
    pub east: Option<MazeCell>,
    pub south: Option<MazeCell>,
    pub west: Option<MazeCell>,
}

/// Number of walls between vertically adjacent cells.
pub open spec fn horizontal_count(width: nat, height: nat) -> nat {
    if width == 0 || height == 0 {
        0
    } else {
        ((height - 1) * width) as nat
    }
}

/// Number of walls between horizontally adjacent cells.
pub open spec fn vertical_count(width: nat, height: nat) -> nat {
    if width == 0 || height == 0 {
        0
    } else {
        ((width - 1) * height) as nat
    }
}

/// Number of interior walls of a `width` x `height` grid.
pub open spec fn wall_count(width: nat, height: nat) -> nat {
    horizontal_count(width, height) + vertical_count(width, height)
}

/// Reads an executable wall index as a mathematical one.
pub open spec fn slot(index: Option<usize>) -> Option<int> {
    match index {
        Some(i) => Some(i as int),
        None => None,
    }
}

/// The mathematical model of a maze: its dimensions and the state of each wall slot.
pub struct Grid {
    pub width: nat,
    pub height: nat,
    pub walls: Seq<Wall>,
}

impl Grid {
    /// The grid of the given size with every wall closed.
    pub open spec fn closed(width: nat, height: nat) -> Grid {
        Grid { width, height, walls: Seq::new(wall_count(width, height), |i: int| Wall::Closed) }
    }

    /// At least one cell, and one slot per interior wall.
    pub open spec fn wf(self) -> bool {
        &&& 1 <= self.width <= u32::MAX
        &&& 1 <= self.height <= u32::MAX
        &&& self.walls.len() == wall_count(self.width, self.height)
        &&& self.walls.len() <= u32::MAX
    }

    /// Whether `(x, y)` is a cell of the grid.
    pub open spec fn has_cell(self, x: int, y: int) -> bool {
        0 <= x < self.width && 0 <= y < self.height
    }

    /// Slot of the wall north of cell `(x, y)`; the top row has none.
    pub open spec fn north_wall(self, x: int, y: int) -> Option<int> {
        if y >= self.height - 1 {
            None
        } else {
            Some(x + y * self.width)
        }
    }

    /// Slot of the wall east of cell `(x, y)`; the rightmost column has none.
    pub open spec fn east_wall(self, x: int, y: int) -> Option<int> {
        if x >= self.width - 1 {
            None
        } else {
            Some(horizontal_count(self.width, self.height) + y + x * self.height)
        }
    }

    /// Slot of the wall south of cell `(x, y)`: the north wall of the cell below.
    pub open spec fn south_wall(self, x: int, y: int) -> Option<int> {
        if y == 0 {
            None
        } else {
            self.north_wall(x, y - 1)
        }
    }

    /// Slot of the wall west of cell `(x, y)`: the east wall of the cell to the left.
    pub open spec fn west_wall(self, x: int, y: int) -> Option<int> {
        if x == 0 {
            None
        } else {
            self.east_wall(x - 1, y)
        }
    }

    /// The grid with one more slot open; an absent slot changes nothing.
    pub open spec fn with_open(self, index: Option<int>) -> Grid {
        match index {
            Some(i) => Grid { walls: self.walls.update(i, Wall::Open), ..self },
            None => self,
        }
    }

    /// The grid with the wall north of `(x, y)` open; unchanged in the top row.
    pub open spec fn open_north(self, x: int, y: int) -> Grid {
        self.with_open(self.north_wall(x, y))
    }

    /// The grid with the wall east of `(x, y)` open; unchanged in the rightmost column.
    pub open spec fn open_east(self, x: int, y: int) -> Grid {
        self.with_open(self.east_wall(x, y))
    }

    /// Whether the slot exists and its wall is open.
    pub open spec fn is_passage(self, index: Option<int>) -> bool {
        match index {
            Some(i) => 0 <= i < self.walls.len() && self.walls[i] == Wall::Open,
            None => false,
        }
    }

    /// The neighbours of `(x, y)` that an open wall leads to.
    pub open spec fn movement_options(self, x: int, y: int) -> MovementOptions {
        MovementOptions {
            north: if self.is_passage(self.north_wall(x, y)) {
                Some(MazeCell { x: x as u32, y: (y + 1) as u32 })
            } else {
                None
            },
            east: if self.is_passage(self.east_wall(x, y)) {
                Some(MazeCell { x: (x + 1) as u32, y: y as u32 })
            } else {
                None
            },
            south: if self.is_passage(self.south_wall(x, y)) {
                Some(MazeCell { x: x as u32, y: (y - 1) as u32 })
            } else {
                None
            },
            west: if self.is_passage(self.west_wall(x, y)) {
                Some(MazeCell { x: (x - 1) as u32, y: y as u32 })
            } else {
                None
            },
        }
    }

    /// A new grid has `(width - 1) * height + (height - 1) * width` walls,
    /// all of them closed.
    pub proof fn closed_grid_is_closed(width: nat, height: nat)
        requires
            width >= 1,
            height >= 1,
        ensures
            Grid::closed(width, height).width == width,
            Grid::closed(width, height).height == height,
            Grid::closed(width, height).walls.len() == (width - 1) * height + (height - 1) * width,
            forall|i: int|
                0 <= i < Grid::closed(width, height).walls.len() ==> Grid::closed(
                    width,
                    height,
                ).walls[i] == Wall::Closed,
    {
        assert(0 <= (width - 1) * height && 0 <= (height - 1) * width) by (nonlinear_arith)
            requires
                width >= 1,
                height >= 1,
        ;
    }

    /// The wall north of a cell is the wall south of the cell above it.
    pub proof fn north_is_south_of_upper(self, x: int, y: int)
        requires
            self.wf(),
            self.has_cell(x, y),
            self.has_cell(x, y + 1),
        ensures
            self.north_wall(x, y) is Some,
            self.north_wall(x, y) == self.south_wall(x, y + 1),
    {
    }

    /// The wall east of a cell is the wall west of the cell to its right.
    pub proof fn east_is_west_of_right(self, x: int, y: int)
        requires
            self.wf(),
            self.has_cell(x, y),
            self.has_cell(x + 1, y),
        ensures
            self.east_wall(x, y) is Some,
            self.east_wall(x, y) == self.west_wall(x + 1, y),
    {
    }

    /// Opening a wall leaves it open, and opening it again changes nothing.
    pub proof fn opening_is_idempotent(self, x: int, y: int)
        requires
            self.wf(),
            self.has_cell(x, y),
        ensures
            self.open_north(x, y).wf(),
            self.open_east(x, y).wf(),
            self.north_wall(x, y) is Some ==> self.open_north(x, y).is_passage(
                self.north_wall(x, y),
            ),
            self.east_wall(x, y) is Some ==> self.open_east(x, y).is_passage(self.east_wall(x, y)),
            self.open_north(x, y).open_north(x, y) == self.open_north(x, y),
            self.open_east(x, y).open_east(x, y) == self.open_east(x, y),
            self.is_passage(self.north_wall(x, y)) ==> self.open_north(x, y) == self,
            self.is_passage(self.east_wall(x, y)) ==> self.open_east(x, y) == self,
    {
        self.north_wall_in_range(x, y);
        self.east_wall_in_range(x, y);
        let n = self.open_north(x, y);
        let e = self.open_east(x, y);
        assert(n.open_north(x, y).walls =~= n.walls);
        assert(e.open_east(x, y).walls =~= e.walls);
        if self.is_passage(self.north_wall(x, y)) {
            assert(n.walls =~= self.walls);
        }
        if self.is_passage(self.east_wall(x, y)) {
            assert(e.walls =~= self.walls);
        }
    }

    /// No two walls share a slot: a north wall and an east wall never do, and
    /// two walls of the same direction only when they belong to the same cell.
    pub proof fn slots_are_distinct(self, x1: int, y1: int, x2: int, y2: int)
        requires
            self.wf(),
            self.has_cell(x1, y1),
            self.has_cell(x2, y2),
        ensures
            self.north_wall(x1, y1) is Some ==> self.north_wall(x1, y1) != self.east_wall(x2, y2),
            self.north_wall(x1, y1) is Some && self.north_wall(x1, y1) == self.north_wall(x2, y2)
                ==> x1 == x2 && y1 == y2,
            self.east_wall(x1, y1) is Some && self.east_wall(x1, y1) == self.east_wall(x2, y2)
                ==> x1 == x2 && y1 == y2,
    {
        self.north_wall_in_range(x1, y1);
        self.north_wall_in_range(x2, y2);
        self.east_wall_in_range(x1, y1);
        self.east_wall_in_range(x2, y2);
        let w = self.width as int;
        let h = self.height as int;
        if x1 + y1 * w == x2 + y2 * w {
            assert(x1 == x2 && y1 == y2) by (nonlinear_arith)
                requires
                    x1 + y1 * w == x2 + y2 * w,
                    0 <= x1 < w,
                    0 <= x2 < w,
            ;
        }
        if y1 + x1 * h == y2 + x2 * h {
            assert(x1 == x2 && y1 == y2) by (nonlinear_arith)
                requires
                    y1 + x1 * h == y2 + x2 * h,
                    0 <= y1 < h,
                    0 <= y2 < h,
            ;
        }
    }

    /// A north wall that exists lies among the horizontal slots.
    pub proof fn north_wall_in_range(self, x: int, y: int)
        requires
            self.wf(),
            self.has_cell(x, y),
        ensures
            self.north_wall(x, y) is Some <==> y + 1 < self.height,
            self.north_wall(x, y) matches Some(i) ==> 0 <= i < horizontal_count(
                self.width,
                self.height,
            ) <= self.walls.len(),
    {
        let w = self.width as int;
        let h = self.height as int;
        if y + 1 < h {
            assert(x + y * w < (h - 1) * w) by (nonlinear_arith)
                requires
                    0 <= x < w,
                    0 <= y < h - 1,
            ;
        }
    }

    /// An east wall that exists lies among the vertical slots.
    pub proof fn east_wall_in_range(self, x: int, y: int)
        requires
            self.wf(),
            self.has_cell(x, y),
        ensures
            self.east_wall(x, y) is Some <==> x + 1 < self.width,
            self.east_wall(x, y) matches Some(i) ==> horizontal_count(self.width, self.height)
                <= i < self.walls.len(),
    {
        let w = self.width as int;
        let h = self.height as int;
        if x + 1 < w {
            assert(0 <= y + x * h < (w - 1) * h) by (nonlinear_arith)
                requires
                    0 <= y < h,
                    0 <= x < w - 1,
            ;
        }
    }
}

impl View for Maze {
    type V = Grid;

    closed spec fn view(&self) -> Grid {
        Grid { width: self.width as nat, height: self.height as nat, walls: self.walls@ }
    }
}

/// A maze: the grid's dimensions and the state of each interior wall.
pub struct Maze {
    height: u32,
    width: u32,
    walls: Vec<Wall>,
}

impl Maze {
    /// The invariant of a maze: that of its grid.
    pub open spec fn wf(&self) -> bool {
        self@.wf()
    }

    /// Creates a maze with every wall closed.
    pub fn new(width: u32, height: u32) -> (made: Result<Maze, MazeError>)
        requires
            wall_count(width as nat, height as nat) <= u32::MAX,
        ensures
            made is Err <==> width == 0 || height == 0,
            made is Err ==> made == Err::<Maze, MazeError>(MazeError::InvalidDimension),
            made matches Ok(maze) ==> maze.wf() && maze@ == Grid::closed(width as nat, height as nat),
            made matches Ok(maze) ==> maze@.walls.len() == (width - 1) * height + (height - 1)
                * width,
            made matches Ok(maze) ==> forall|i: int|
                0 <= i < maze@.walls.len() ==> maze@.walls[i] == Wall::Closed,
    {
        if width < 1 || height < 1 {
            return Err(MazeError::InvalidDimension);
        }
        proof {
            Grid::closed_grid_is_closed(width as nat, height as nat);
        }
        assert(0 <= (width - 1) * height && 0 <= (height - 1) * width) by (nonlinear_arith)
            requires
                width >= 1,
                height >= 1,
        ;
        let num_vertical_segments: u32 = (width - 1) * height;
        let num_horizontal_segments: u32 = (height - 1) * width;
        let total_walls: u32 = num_vertical_segments + num_horizontal_segments;
        let walls = vec![Wall::Closed; total_walls as usize];
        let maze = Maze { height, width, walls };
        assert(maze@.walls =~= Grid::closed(width as nat, height as nat).walls);
        Ok(maze)
    }

    /// Number of columns.
    pub fn width(&self) -> (width: u32)
        ensures
            width == self@.width,
    {
        self.width
    }

    /// Number of rows.
    pub fn height(&self) -> (height: u32)
        ensures
            height == self@.height,
    {
        self.height
    }

    /// Number of wall slots.
    pub fn wall_count(&self) -> (count: usize)
        ensures
            count == self@.walls.len(),
    {
        self.walls.len()
    }

    /// The state of the wall in slot `index`.
    pub fn wall_at(&self, index: usize) -> (wall: Wall)
        requires
            index < self@.walls.len(),
        ensures
            wall == self@.walls[index as int],
    {
        self.walls[index]
    }

    /// Slot of the wall north of cell `(x, y)`, `None` in the top row.
    pub fn north_wall_index_for_cell(&self, x: u32, y: u32) -> (index: Option<usize>)
        requires
            self.wf(),
            self@.has_cell(x as int, y as int),
        ensures
            slot(index) == self@.north_wall(x as int, y as int),
            index matches Some(i) ==> i < self@.walls.len(),
    {
        proof {
            self@.north_wall_in_range(x as int, y as int);
        }
        if y >= self.height - 1 {
            return None;
        }
        assert(y * self.width >= 0) by (nonlinear_arith);
        let index: u32 = x + y * self.width;
        Some(index as usize)
    }

    /// Slot of the wall east of cell `(x, y)`, `None` in the rightmost column.
    pub fn east_wall_index_for_cell(&self, x: u32, y: u32) -> (index: Option<usize>)
        requires
            self.wf(),
            self@.has_cell(x as int, y as int),
        ensures
            slot(index) == self@.east_wall(x as int, y as int),
            index matches Some(i) ==> i < self@.walls.len(),
    {
        proof {
            self@.east_wall_in_range(x as int, y as int);
        }
        if x >= self.width - 1 {
            return None;
        }
        assert(0 <= (self.height - 1) * self.width && 0 <= x * self.height) by (nonlinear_arith)
            requires
                self.height >= 1,
        ;
        let num_horizontal_segments: u32 = (self.height - 1) * self.width;
        let index: u32 = num_horizontal_segments + (y + x * self.height);
        Some(index as usize)
    }

    /// Slot of the wall south of cell `(x, y)`, `None` in the bottom row.
    pub fn south_wall_index_for_cell(&self, x: u32, y: u32) -> (index: Option<usize>)
        requires
            self.wf(),
            self@.has_cell(x as int, y as int),
        ensures
            slot(index) == self@.south_wall(x as int, y as int),
            index matches Some(i) ==> i < self@.walls.len(),
    {
        if y == 0 {
            None
        } else {
            self.north_wall_index_for_cell(x, y - 1)
        }
    }

    /// Slot of the wall west of cell `(x, y)`, `None` in the leftmost column.
    pub fn west_wall_index_for_cell(&self, x: u32, y: u32) -> (index: Option<usize>)
        requires
            self.wf(),
            self@.has_cell(x as int, y as int),
        ensures
            slot(index) == self@.west_wall(x as int, y as int),
            index matches Some(i) ==> i < self@.walls.len(),
    {
        if x == 0 {
            None
        } else {
            self.east_wall_index_for_cell(x - 1, y)
        }
    }

    /// Opens the wall north of `cell`. In the top row nothing changes and
    /// `EdgeWall` is returned.
    pub fn open_north_wall(&mut self, cell: MazeCell) -> (opened: Result<(), MazeError>)
        requires
            old(self).wf(),
            old(self)@.has_cell(cell.x as int, cell.y as int),
        ensures
            final(self).wf(),
            final(self)@ == old(self)@.open_north(cell.x as int, cell.y as int),
            opened is Ok <==> old(self)@.north_wall(cell.x as int, cell.y as int) is Some,
            opened is Err ==> opened == Err::<(), MazeError>(MazeError::EdgeWall),
    {
        let index = self.north_wall_index_for_cell(cell.x, cell.y);
        match index {
            Some(index) => {
                self.walls.set(index, Wall::Open);
                Ok(())
            },
            None => Err(MazeError::EdgeWall),
        }
    }

    /// Opens the wall east of `cell`. In the rightmost column nothing changes
    /// and `EdgeWall` is returned.
    pub fn open_east_wall(&mut self, cell: MazeCell) -> (opened: Result<(), MazeError>)
        requires
            old(self).wf(),
            old(self)@.has_cell(cell.x as int, cell.y as int),
        ensures
            final(self).wf(),
            final(self)@ == old(self)@.open_east(cell.x as int, cell.y as int),
            opened is Ok <==> old(self)@.east_wall(cell.x as int, cell.y as int) is Some,
            opened is Err ==> opened == Err::<(), MazeError>(MazeError::EdgeWall),
    {
        let index = self.east_wall_index_for_cell(cell.x, cell.y);
        match index {
            Some(index) => {
                self.walls.set(index, Wall::Open);
                Ok(())
            },
            None => Err(MazeError::EdgeWall),
        }
    }

    /// Whether the wall in an optional slot is open; an absent slot is not.
    fn is_passage(&self, index: Option<usize>) -> (open: bool)
        requires
            index matches Some(i) ==> i < self@.walls.len(),
        ensures
            open == self@.is_passage(slot(index)),
    {
        match index {
            Some(i) => match self.walls[i] {
                Wall::Open => true,
                Wall::Closed => false,
            },
            None => false,
        }
    }

    /// The neighbouring cells that can be reached from `cell` through an open wall.
    pub fn get_movement_options_for(&self, cell: MazeCell) -> (options: MovementOptions)
        requires
            self.wf(),
            self@.has_cell(cell.x as int, cell.y as int),
        ensures
            options == self@.movement_options(cell.x as int, cell.y as int),
    {
        let x = cell.x;
        let y = cell.y;
        let north = if self.is_passage(self.north_wall_index_for_cell(x, y)) {
            Some(MazeCell::new(x, y + 1))
        } else {
            None
        };
        let east = if self.is_passage(self.east_wall_index_for_cell(x, y)) {
            Some(MazeCell::new(x + 1, y))
        } else {
            None
        };
        let south = if self.is_passage(self.south_wall_index_for_cell(x, y)) {
            Some(MazeCell::new(x, y - 1))
        } else {
            None
        };
        let west = if self.is_passage(self.west_wall_index_for_cell(x, y)) {
            Some(MazeCell::new(x - 1, y))
        } else {
            None
        };
        MovementOptions::new(north, east, south, west)
    }
}

impl MovementOptions {
    /// The options with the given neighbour, or none, in each direction.
    pub fn new(
        north: Option<MazeCell>,
        east: Option<MazeCell>,
        south: Option<MazeCell>,
        west: Option<MazeCell>,
    ) -> (options: MovementOptions)
        ensures
            options == (MovementOptions { north, east, south, west }),
    {
        MovementOptions { north, east, south, west }
    }
}

impl MazeCell {
    /// The cell in column `x` of row `y`.
    pub fn new(x: u32, y: u32) -> (cell: MazeCell)
        ensures
            cell == (MazeCell { x, y }),
    {
        MazeCell { x, y }
    }
}

} // verus!
