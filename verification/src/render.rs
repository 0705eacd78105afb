//! The text picture of a maze in box-drawing characters.
//!
//! The picture has one line per lattice row and one per row of cells, the
//! northernmost first. Each cell is three characters wide; every fourth
//! character stands on a lattice point or on a vertical wall.

use vstd::prelude::*;
use vstd::string::*;
use crate::grid::{Grid, Maze, Wall};

verus! {

/// The box-drawing character whose arms point exactly in the given directions.
pub open spec fn arms_glyph(up: bool, right: bool, down: bool, left: bool) -> char {
    if up {
        if right {
            if down {
                if left { '┼' } else { '├' }
            } else {
                if left { '┴' } else { '└' }
            }
        } else {
            if down {
                if left { '┤' } else { '│' }
            } else {
                if left { '┘' } else { '╵' }
            }
        }
    } else {
        if right {
            if down {
                if left { '┬' } else { '┌' }
            } else {
                if left { '─' } else { '╶' }
            }
        } else {
            if down {
                if left { '┐' } else { '╷' }
            } else {
                if left { '╴' } else { ' ' }
            }
        }
    }
}

/// Whether a wall runs north from lattice point `(x, y)`: the outer edge or a
/// closed wall west of cell `(x, y)`.
pub open spec fn arm_up(g: Grid, x: int, y: int) -> bool {
    y < g.height && !g.is_passage(g.west_wall(x, y))
}

/// Whether a wall runs east from lattice point `(x, y)`: the outer edge or a
/// closed wall south of cell `(x, y)`.
pub open spec fn arm_right(g: Grid, x: int, y: int) -> bool {
    x < g.width && !g.is_passage(g.south_wall(x, y))
}

/// Whether a wall runs south from lattice point `(x, y)`.
pub open spec fn arm_down(g: Grid, x: int, y: int) -> bool {
    y > 0 && !g.is_passage(g.west_wall(x, y - 1))
}

/// Whether a wall runs west from lattice point `(x, y)`.
pub open spec fn arm_left(g: Grid, x: int, y: int) -> bool {
    x > 0 && !g.is_passage(g.south_wall(x - 1, y))
}

/// The character drawn on lattice point `(x, y)`, the south-west corner of
/// cell `(x, y)`, for `0 <= x <= width` and `0 <= y <= height`.
pub open spec fn corner_glyph(g: Grid, x: int, y: int) -> char {
    arms_glyph(arm_up(g, x, y), arm_right(g, x, y), arm_down(g, x, y), arm_left(g, x, y))
}

/// The line through lattice row `y`: corners, and between them the south
/// walls of the cells of row `y`.
pub open spec fn lattice_line(g: Grid, y: int) -> Seq<char> {
    Seq::new(
        (4 * g.width + 1) as nat,
        |c: int|
            if c % 4 == 0 {
                corner_glyph(g, c / 4, y)
            } else if arm_right(g, c / 4, y) {
                '─'
            } else {
                ' '
            },
    )
}

/// The line through the cells of row `y`: blanks, and the vertical walls
/// between them.
pub open spec fn cell_line(g: Grid, y: int) -> Seq<char> {
    Seq::new(
        (4 * g.width + 1) as nat,
        |c: int|
            if c % 4 == 0 && arm_up(g, c / 4, y) {
                '│'
            } else {
                ' '
            },
    )
}

/// The lines of the picture from top to bottom: lattice rows `height` down to
/// `0`, with the rows of cells between them.
pub open spec fn picture_lines(g: Grid) -> Seq<Seq<char>> {
    Seq::new(
        2 * g.height + 1,
        |r: int|
            if r % 2 == 0 {
                lattice_line(g, g.height - r / 2)
            } else {
                cell_line(g, g.height - (r + 1) / 2)
            },
    )
}

/// The lines joined by line feeds, with none after the last.
pub open spec fn join_lines(lines: Seq<Seq<char>>) -> Seq<char>
    decreases lines.len(),
{
    if lines.len() == 0 {
        Seq::empty()
    } else if lines.len() == 1 {
        lines[0]
    } else {
        join_lines(lines.drop_last()) + seq!['\n'] + lines.last()
    }
}

/// The whole picture of a maze.
pub open spec fn picture(g: Grid) -> Seq<char> {
    join_lines(picture_lines(g))
}

/// Taking four more characters of a line appends those four.
proof fn lemma_take_four(line: Seq<char>, at: int, a: char, b: char, c: char, d: char)
    requires
        0 <= at,
        at + 4 <= line.len(),
        line[at] == a,
        line[at + 1] == b,
        line[at + 2] == c,
        line[at + 3] == d,
    ensures
        line.take(at + 4) == line.take(at) + seq![a, b, c, d],
{
    assert(line.take(at + 4) =~= line.take(at) + seq![a, b, c, d]);
}

/// The glyph for lattice point `(x, y)`, or `None` outside the lattice.
pub fn get_corner(maze: &Maze, x: u32, y: u32) -> (corner: Option<&'static str>)
    requires
        maze.wf(),
    ensures
        corner is None <==> x > maze@.width || y > maze@.height,
        corner matches Some(s) ==> s@ == seq![corner_glyph(maze@, x as int, y as int)],
{
    let width = maze.width();
    let height = maze.height();
    if x > width || y > height {
        return None;
    }
    proof {
        reveal_strlit("└");
        reveal_strlit("┌");
        reveal_strlit("┘");
        reveal_strlit("┐");
        reveal_strlit("│");
        reveal_strlit("├");
        reveal_strlit("┤");
        reveal_strlit("─");
        reveal_strlit("┴");
        reveal_strlit("┬");
        reveal_strlit(" ");
        reveal_strlit("╴");
        reveal_strlit("╷");
        reveal_strlit("╶");
        reveal_strlit("╵");
        reveal_strlit("┼");
    }
    let corner = if x == 0 && y == 0 {
        "└"
    } else if x == 0 && y == height {
        "┌"
    } else if x == width && y == 0 {
        "┘"
    } else if x == width && y == height {
        "┐"
    } else if x == 0 {
        match maze.wall_at(maze.south_wall_index_for_cell(0, y).unwrap()) {
            Wall::Open => "│",
            Wall::Closed => "├",
        }
    } else if x == width {
        match maze.wall_at(maze.south_wall_index_for_cell(x - 1, y).unwrap()) {
            Wall::Open => "│",
            Wall::Closed => "┤",
        }
    } else if y == 0 {
        match maze.wall_at(maze.east_wall_index_for_cell(x - 1, 0).unwrap()) {
            Wall::Open => "─",
            Wall::Closed => "┴",
        }
    } else if y == height {
        match maze.wall_at(maze.east_wall_index_for_cell(x - 1, y - 1).unwrap()) {
            Wall::Open => "─",
            Wall::Closed => "┬",
        }
    } else {
        let walls = (
            maze.wall_at(maze.east_wall_index_for_cell(x - 1, y).unwrap()),
            maze.wall_at(maze.north_wall_index_for_cell(x, y - 1).unwrap()),
            maze.wall_at(maze.east_wall_index_for_cell(x - 1, y - 1).unwrap()),
            maze.wall_at(maze.north_wall_index_for_cell(x - 1, y - 1).unwrap()),
        );
        match walls {
            (Wall::Open, Wall::Open, Wall::Open, Wall::Open) => " ",
            (Wall::Open, Wall::Open, Wall::Open, Wall::Closed) => "╴",
            (Wall::Open, Wall::Open, Wall::Closed, Wall::Open) => "╷",
            (Wall::Open, Wall::Open, Wall::Closed, Wall::Closed) => "┐",
            (Wall::Open, Wall::Closed, Wall::Open, Wall::Open) => "╶",
            (Wall::Open, Wall::Closed, Wall::Open, Wall::Closed) => "─",
            (Wall::Open, Wall::Closed, Wall::Closed, Wall::Open) => "┌",
            (Wall::Open, Wall::Closed, Wall::Closed, Wall::Closed) => "┬",
            (Wall::Closed, Wall::Open, Wall::Open, Wall::Open) => "╵",
            (Wall::Closed, Wall::Open, Wall::Open, Wall::Closed) => "┘",
            (Wall::Closed, Wall::Open, Wall::Closed, Wall::Open) => "│",
            (Wall::Closed, Wall::Open, Wall::Closed, Wall::Closed) => "┤",
            (Wall::Closed, Wall::Closed, Wall::Open, Wall::Open) => "└",
            (Wall::Closed, Wall::Closed, Wall::Open, Wall::Closed) => "┴",
            (Wall::Closed, Wall::Closed, Wall::Closed, Wall::Open) => "├",
            (Wall::Closed, Wall::Closed, Wall::Closed, Wall::Closed) => "┼",
        }
    };
    Some(corner)
}

impl Maze {
    /// Appends the line through the cells of row `y`.
    fn push_cell_line(&self, total: &mut String, y: u32)
        requires
            self.wf(),
            y < self@.height,
        ensures
            final(total)@ == old(total)@ + cell_line(self@, y as int),
    {
        let ghost head = total@;
        let ghost line = cell_line(self@, y as int);
        let width = self.width();
        proof {
            reveal_strlit("│");
        }
        total.append("│");
        assert(total@ =~= head + line.take(1));
        let mut x: u32 = 0;
        while x < width
            invariant
                self.wf(),
                width == self@.width,
                y < self@.height,
                x <= width,
                line == cell_line(self@, y as int),
                total@ == head + line.take(4 * x + 1),
            decreases width - x,
        {
            let ghost before = total@;
            total.append("   ");
            let mut walled = true;
            if let Some(index) = self.east_wall_index_for_cell(x, y) {
                walled = match self.wall_at(index) {
                    Wall::Open => false,
                    Wall::Closed => true,
                };
            }
            assert(walled == arm_up(self@, x + 1, y as int));
            if walled {
                total.append("│");
            } else {
                total.append(" ");
            }
            proof {
                let at = 4 * x + 1;
                let wall = if walled { '│' } else { ' ' };
                reveal_strlit("│");
                reveal_strlit("   ");
                reveal_strlit(" ");
                assert("   "@ =~= seq![' ', ' ', ' ']);
                assert("│"@ =~= seq!['│']);
                assert(" "@ =~= seq![' ']);
                assert(total@ =~= before + seq![' ', ' ', ' ', wall]);
                assert(line[at] == ' ' && line[at + 1] == ' ' && line[at + 2] == ' ');
                assert((at + 3) % 4 == 0 && (at + 3) / 4 == x + 1);
                assert(line[at + 3] == wall);
                lemma_take_four(line, at, ' ', ' ', ' ', wall);
            }
            assert(total@ =~= head + line.take(4 * (x + 1) + 1));
            x += 1;
        }
        assert(line.take(4 * width + 1) =~= line);
    }

    /// Appends the line through lattice row `y`.
    fn push_lattice_line(&self, total: &mut String, y: u32)
        requires
            self.wf(),
            y <= self@.height,
        ensures
            final(total)@ == old(total)@ + lattice_line(self@, y as int),
    {
        let ghost head = total@;
        let ghost line = lattice_line(self@, y as int);
        let width = self.width();
        let height = self.height();
        total.append(get_corner(self, 0, y).unwrap());
        assert(total@ =~= head + line.take(1));
        let mut x: u32 = 0;
        while x < width
            invariant
                self.wf(),
                width == self@.width,
                height == self@.height,
                y <= height,
                x <= width,
                line == lattice_line(self@, y as int),
                total@ == head + line.take(4 * x + 1),
            decreases width - x,
        {
            let mut walled = true;
            if y < height {
                if let Some(index) = self.south_wall_index_for_cell(x, y) {
                    walled = match self.wall_at(index) {
                        Wall::Open => false,
                        Wall::Closed => true,
                    };
                }
            }
            assert(walled == arm_right(self@, x as int, y as int));
            let ghost before = total@;
            if walled {
                total.append("───");
            } else {
                total.append("   ");
            }
            total.append(get_corner(self, x + 1, y).unwrap());
            proof {
                let at = 4 * x + 1;
                let dash = if walled { '─' } else { ' ' };
                let corner = corner_glyph(self@, x + 1, y as int);
                reveal_strlit("───");
                reveal_strlit("   ");
                assert("   "@ =~= seq![' ', ' ', ' ']);
                assert("───"@ =~= seq!['─', '─', '─']);
                assert(total@ =~= before + seq![dash, dash, dash, corner]);
                assert(at / 4 == x && (at + 1) / 4 == x && (at + 2) / 4 == x);
                assert(line[at] == dash && line[at + 1] == dash && line[at + 2] == dash);
                assert((at + 3) % 4 == 0 && (at + 3) / 4 == x + 1);
                assert(line[at + 3] == corner);
                lemma_take_four(line, at, dash, dash, dash, corner);
            }
            assert(total@ =~= head + line.take(4 * (x + 1) + 1));
            x += 1;
        }
        assert(line.take(4 * width + 1) =~= line);
    }

    /// Draws the maze: lines separated by line feeds, the northernmost row
    /// first, with no line feed after the last line.
    pub fn render(&self) -> (text: String)
        requires
            self.wf(),
        ensures
            text@ == picture(self@),
    {
        let ghost lines = picture_lines(self@);
        let height = self.height();
        let mut total = String::new();
        self.push_lattice_line(&mut total, height);
        assert(lines.take(1) =~= seq![lattice_line(self@, height as int)]);
        assert(total@ =~= join_lines(lines.take(1)));
        let mut y: u32 = height;
        while y > 0
            invariant
                self.wf(),
                height == self@.height,
                y <= height,
                lines == picture_lines(self@),
                total@ == join_lines(lines.take(2 * (height - y) + 1)),
            decreases y,
        {
            y -= 1;
            let ghost done = 2 * (height - y) - 1;
            proof {
                reveal_strlit("\n");
                assert(lines.take(done + 1).drop_last() =~= lines.take(done));
                assert(lines.take(done + 2).drop_last() =~= lines.take(done + 1));
                assert(lines.take(done + 1).last() == cell_line(self@, y as int));
                assert(lines.take(done + 2).last() == lattice_line(self@, y as int));
            }
            total.append("\n");
            self.push_cell_line(&mut total, y);
            assert(total@ =~= join_lines(lines.take(done + 1)));
            total.append("\n");
            self.push_lattice_line(&mut total, y);
            assert(total@ =~= join_lines(lines.take(done + 2)));
        }
        assert(lines.take(2 * height + 1) =~= lines);
        total
    }
}

} // verus!
