//! Perfect mazes: every cell can be reached from every other, and no wall is
//! open that connectivity does not need.

use vstd::prelude::*;
use crate::carve::{binary_tree_carve, binary_tree_step};
use crate::cells::{cell_at, lemma_cell_in_grid};
use crate::grid::{Grid, MazeCell, Wall};

verus! {

/// Number of open walls.
pub open spec fn open_count(walls: Seq<Wall>) -> nat
    decreases walls.len(),
{
    if walls.len() == 0 {
        0
    } else {
        open_count(walls.drop_last()) + if walls.last() == Wall::Open {
            1nat
        } else {
            0nat
        }
    }
}

/// Whether `b` is the northern neighbour of `a` and the wall between them is open.
pub open spec fn north_link(g: Grid, a: MazeCell, b: MazeCell) -> bool {
    b.x == a.x && b.y == a.y + 1 && g.is_passage(g.north_wall(a.x as int, a.y as int))
}

/// Whether `b` is the eastern neighbour of `a` and the wall between them is open.
pub open spec fn east_link(g: Grid, a: MazeCell, b: MazeCell) -> bool {
    b.x == a.x + 1 && b.y == a.y && g.is_passage(g.east_wall(a.x as int, a.y as int))
}

/// Whether one can step between the neighbouring cells `a` and `b`.
pub open spec fn linked(g: Grid, a: MazeCell, b: MazeCell) -> bool {
    &&& g.has_cell(a.x as int, a.y as int)
    &&& g.has_cell(b.x as int, b.y as int)
    &&& (north_link(g, a, b) || north_link(g, b, a) || east_link(g, a, b) || east_link(g, b, a))
}

/// Whether `path` is a walk through open walls.
pub open spec fn is_path(g: Grid, path: Seq<MazeCell>) -> bool {
    &&& path.len() >= 1
    &&& g.has_cell(path[0].x as int, path[0].y as int)
    &&& forall|i: int| 0 <= i < path.len() - 1 ==> linked(g, #[trigger] path[i], path[i + 1])
}

/// Whether a walk through open walls leads from `a` to `b`.
pub open spec fn joined(g: Grid, a: MazeCell, b: MazeCell) -> bool {
    exists|path: Seq<MazeCell>| #[trigger] is_path(g, path) && path[0] == a && path.last() == b
}

/// Whether every cell can be reached from every other.
pub open spec fn connected(g: Grid) -> bool {
    forall|a: MazeCell, b: MazeCell|
        g.has_cell(a.x as int, a.y as int) && g.has_cell(b.x as int, b.y as int) ==> #[trigger] joined(
            g,
            a,
            b,
        )
}

/// A perfect maze is connected with one open wall less than it has cells; its
/// passages then form a spanning tree, with exactly one way between any two
/// cells.
pub open spec fn perfect(g: Grid) -> bool {
    connected(g) && open_count(g.walls) == g.width * g.height - 1
}

/// A grid without an open wall counts none.
pub proof fn lemma_open_count_closed(walls: Seq<Wall>)
    requires
        forall|i: int| 0 <= i < walls.len() ==> walls[i] == Wall::Closed,
    ensures
        open_count(walls) == 0,
    decreases walls.len(),
{
    if walls.len() > 0 {
        lemma_open_count_closed(walls.drop_last());
    }
}

/// Opening a closed wall raises the count by one.
pub proof fn lemma_open_count_update(walls: Seq<Wall>, i: int)
    requires
        0 <= i < walls.len(),
        walls[i] == Wall::Closed,
    ensures
        open_count(walls.update(i, Wall::Open)) == open_count(walls) + 1,
    decreases walls.len(),
{
    let after = walls.update(i, Wall::Open);
    if i == walls.len() - 1 {
        assert(after.drop_last() =~= walls.drop_last());
    } else {
        lemma_open_count_update(walls.drop_last(), i);
        assert(after.drop_last() =~= walls.drop_last().update(i, Wall::Open));
    }
}

/// Every cell is joined to itself.
pub proof fn lemma_joined_self(g: Grid, a: MazeCell)
    requires
        g.has_cell(a.x as int, a.y as int),
    ensures
        joined(g, a, a),
{
    assert(is_path(g, seq![a]));
}

/// Walks can be put end to end.
pub proof fn lemma_joined_trans(g: Grid, a: MazeCell, b: MazeCell, c: MazeCell)
    requires
        joined(g, a, b),
        joined(g, b, c),
    ensures
        joined(g, a, c),
{
    let p = choose|path: Seq<MazeCell>| #[trigger] is_path(g, path) && path[0] == a && path.last() == b;
    let q = choose|path: Seq<MazeCell>| #[trigger] is_path(g, path) && path[0] == b && path.last() == c;
    let r = p + q.skip(1);
    assert forall|i: int| 0 <= i < r.len() - 1 implies linked(g, #[trigger] r[i], r[i + 1]) by {
        if i < p.len() - 1 {
            assert(linked(g, p[i], p[i + 1]));
        } else {
            let j = i - (p.len() - 1);
            assert(linked(g, q[j], q[j + 1]));
        }
    }
    assert(is_path(g, r));
}

/// A step is a walk, in either direction.
pub proof fn lemma_joined_step(g: Grid, a: MazeCell, b: MazeCell)
    requires
        linked(g, a, b),
    ensures
        joined(g, a, b),
        joined(g, b, a),
{
    assert(is_path(g, seq![a, b]));
    assert(is_path(g, seq![b, a]));
}

/// Whether the binary-tree procedure has opened the wall north of `(x, y)`
/// once it has thrown `coins`: the cell was visited, and the coin showed heads
/// or there was no wall to the east.
pub open spec fn binary_tree_opens_north(
    width: nat,
    height: nat,
    coins: Seq<bool>,
    x: int,
    y: int,
) -> bool {
    let i = y * width + x;
    y + 1 < height && i < coins.len() && (coins[i] || x + 1 == width)
}

/// Whether the binary-tree procedure has opened the wall east of `(x, y)`
/// once it has thrown `coins`: the cell was visited, and the coin showed tails
/// or there was no wall to the north.
pub open spec fn binary_tree_opens_east(
    width: nat,
    height: nat,
    coins: Seq<bool>,
    x: int,
    y: int,
) -> bool {
    let i = y * width + x;
    x + 1 < width && i < coins.len() && (!coins[i] || y + 1 == height)
}

/// Two cells of a row-major grid have the same rank only if they are the same.
proof fn lemma_rank_unique(w: int, x1: int, y1: int, x2: int, y2: int)
    requires
        0 <= x1 < w,
        0 <= x2 < w,
        y1 * w + x1 == y2 * w + x2,
    ensures
        x1 == x2,
        y1 == y2,
{
    assert(x1 == x2 && y1 == y2) by (nonlinear_arith)
        requires
            0 <= x1 < w,
            0 <= x2 < w,
            y1 * w + x1 == y2 * w + x2,
    ;
}

/// Which walls the binary-tree procedure has opened after any number of
/// steps, and how many.
pub proof fn lemma_binary_tree_walls(width: nat, height: nat, coins: Seq<bool>)
    requires
        Grid::closed(width, height).wf(),
        coins.len() <= width * height,
    ensures
        ({
            let g = binary_tree_carve(width, height, coins);
            &&& g.wf()
            &&& g.width == width
            &&& g.height == height
            &&& forall|x: int, y: int|
                #![trigger g.north_wall(x, y)]
                #![trigger g.east_wall(x, y)]
                g.has_cell(x, y) ==> {
                    &&& g.is_passage(g.north_wall(x, y)) <==> binary_tree_opens_north(
                        width,
                        height,
                        coins,
                        x,
                        y,
                    )
                    &&& g.is_passage(g.east_wall(x, y)) <==> binary_tree_opens_east(
                        width,
                        height,
                        coins,
                        x,
                        y,
                    )
                }
            &&& open_count(g.walls) == if coins.len() == width * height {
                coins.len() - 1
            } else {
                coins.len() as int
            }
        }),
    decreases coins.len(),
{
    let g = binary_tree_carve(width, height, coins);
    let w = width as int;
    let h = height as int;
    if coins.len() == 0 {
        lemma_open_count_closed(g.walls);
        assert(w * h >= 1) by (nonlinear_arith)
            requires
                w >= 1,
                h >= 1,
        ;
    } else {
        let before = coins.drop_last();
        let k = before.len() as int;
        let gp = binary_tree_carve(width, height, before);
        lemma_binary_tree_walls(width, height, before);
        lemma_cell_in_grid(width, height, k);
        let cell = cell_at(width, k);
        let cx = cell.x as int;
        let cy = cell.y as int;
        let coin = coins.last();
        assert(g == binary_tree_step(gp, cell, coin));
        gp.north_wall_in_range(cx, cy);
        gp.east_wall_in_range(cx, cy);
        assert(gp.north_wall(cx, cy) is Some ==> !gp.is_passage(gp.north_wall(cx, cy)));
        assert(gp.east_wall(cx, cy) is Some ==> !gp.is_passage(gp.east_wall(cx, cy)));
        let opened: Option<int> = if coin {
            if gp.north_wall(cx, cy) is Some {
                gp.north_wall(cx, cy)
            } else {
                gp.east_wall(cx, cy)
            }
        } else {
            if gp.east_wall(cx, cy) is Some {
                gp.east_wall(cx, cy)
            } else {
                gp.north_wall(cx, cy)
            }
        };
        assert(g == gp.with_open(opened));
        assert((h - 1) * w + (w - 1) == w * h - 1) by (nonlinear_arith);
        if opened is Some {
            lemma_open_count_update(gp.walls, opened.unwrap());
            if k == w * h - 1 {
                lemma_rank_unique(w, cx, cy, w - 1, h - 1);
            }
        } else {
            assert(cx == w - 1 && cy == h - 1);
        }
        assert forall|x: int, y: int|
            #![trigger g.north_wall(x, y)]
            #![trigger g.east_wall(x, y)]
            g.has_cell(x, y) implies {
            &&& g.is_passage(g.north_wall(x, y)) <==> binary_tree_opens_north(
                width,
                height,
                coins,
                x,
                y,
            )
            &&& g.is_passage(g.east_wall(x, y)) <==> binary_tree_opens_east(
                width,
                height,
                coins,
                x,
                y,
            )
        } by {
            gp.slots_are_distinct(cx, cy, x, y);
            gp.slots_are_distinct(x, y, cx, cy);
            gp.north_wall_in_range(x, y);
            gp.east_wall_in_range(x, y);
            let i = y * w + x;
            if i == k {
                lemma_rank_unique(w, x, y, cx, cy);
            }
            if i < k {
                assert(before[i] == coins[i]);
            }
            assert(gp.north_wall(x, y) == g.north_wall(x, y));
            assert(gp.east_wall(x, y) == g.east_wall(x, y));
            assert(gp.is_passage(gp.north_wall(x, y)) <==> binary_tree_opens_north(
                width,
                height,
                before,
                x,
                y,
            ));
            assert(gp.is_passage(gp.east_wall(x, y)) <==> binary_tree_opens_east(
                width,
                height,
                before,
                x,
                y,
            ));
        }
    }
}

/// In a finished binary-tree maze every cell is joined to the north-east
/// corner: each other cell has an open wall to the north or to the east.
proof fn lemma_binary_tree_reaches_corner(width: nat, height: nat, coins: Seq<bool>, a: MazeCell)
    requires
        Grid::closed(width, height).wf(),
        coins.len() == width * height,
        a.x < width,
        a.y < height,
    ensures
        joined(
            binary_tree_carve(width, height, coins),
            a,
            MazeCell { x: (width - 1) as u32, y: (height - 1) as u32 },
        ),
        joined(
            binary_tree_carve(width, height, coins),
            MazeCell { x: (width - 1) as u32, y: (height - 1) as u32 },
            a,
        ),
    decreases (width - a.x) + (height - a.y),
{
    let g = binary_tree_carve(width, height, coins);
    let corner = MazeCell { x: (width - 1) as u32, y: (height - 1) as u32 };
    lemma_binary_tree_walls(width, height, coins);
    let x = a.x as int;
    let y = a.y as int;
    if a == corner {
        lemma_joined_self(g, a);
    } else {
        let w = width as int;
        let h = height as int;
        assert(0 <= y * w + x < w * h) by (nonlinear_arith)
            requires
                0 <= x < w,
                0 <= y < h,
        ;
        assert(g.is_passage(g.north_wall(x, y)) <==> binary_tree_opens_north(
            width,
            height,
            coins,
            x,
            y,
        ));
        assert(g.is_passage(g.east_wall(x, y)) <==> binary_tree_opens_east(
            width,
            height,
            coins,
            x,
            y,
        ));
        let next = if g.is_passage(g.north_wall(x, y)) {
            MazeCell { x: a.x, y: (a.y + 1) as u32 }
        } else {
            MazeCell { x: (a.x + 1) as u32, y: a.y }
        };
        assert(linked(g, a, next));
        lemma_binary_tree_reaches_corner(width, height, coins, next);
        lemma_joined_step(g, a, next);
        lemma_joined_trans(g, a, next, corner);
        lemma_joined_trans(g, corner, next, a);
    }
}

/// The binary-tree procedure yields a perfect maze whatever the coin shows:
/// the finished maze is connected and has one open wall per cell but one.
pub proof fn binary_tree_is_perfect(width: nat, height: nat, coins: Seq<bool>)
    requires
        Grid::closed(width, height).wf(),
        coins.len() == width * height,
    ensures
        binary_tree_carve(width, height, coins).wf(),
        binary_tree_carve(width, height, coins).width == width,
        binary_tree_carve(width, height, coins).height == height,
        perfect(binary_tree_carve(width, height, coins)),
{
    let g = binary_tree_carve(width, height, coins);
    let corner = MazeCell { x: (width - 1) as u32, y: (height - 1) as u32 };
    lemma_binary_tree_walls(width, height, coins);
    assert forall|a: MazeCell, b: MazeCell|
        g.has_cell(a.x as int, a.y as int) && g.has_cell(b.x as int, b.y as int) implies #[trigger] joined(
        g,
        a,
        b,
    ) by {
        lemma_binary_tree_reaches_corner(width, height, coins, a);
        lemma_binary_tree_reaches_corner(width, height, coins, b);
        lemma_joined_trans(g, a, corner, b);
    }
}

} // verus!
