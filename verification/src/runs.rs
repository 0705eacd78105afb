//! When the sidewinder procedure yields a perfect maze.
//!
//! Below the top row every run is closed by opening one wall to the north, so
//! each cell finds a way up. In the top row a run is closed by opening the
//! east wall of the picked cell; unless that is the cell just visited, the
//! wall is open already, the step opens nothing, and the wall east of the
//! visited cell stays closed for good.

use vstd::prelude::*;
use vstd::arithmetic::div_mod::lemma_fundamental_div_mod_converse;
use crate::carve::{sidewinder_carve, sidewinder_step, Sidewinder};
use crate::cells::{cell_at, lemma_cell_in_grid};
use crate::grid::{Grid, MazeCell, Wall};
use crate::perfect::{
    joined,
    lemma_joined_self,
    lemma_joined_step,
    lemma_joined_trans,
    lemma_open_count_closed,
    lemma_open_count_update,
    linked,
    open_count,
    perfect,
};

verus! {

/// Whether a step closes a run of the top row at a cell other than the one
/// just visited, before the last column: such a step opens no wall.
pub open spec fn wasted_close(
    width: nat,
    height: nat,
    run: Seq<MazeCell>,
    cell: MazeCell,
    coin: bool,
    pick: int,
) -> bool {
    coin && cell.y + 1 == height && cell.x + 1 < width && pick % (run.len() as int + 1) != run.len()
}

/// Whether any step of the sidewinder procedure on these coins and picks is a
/// wasted close.
pub open spec fn sidewinder_wastes(width: nat, height: nat, coins: Seq<bool>, picks: Seq<usize>)
    -> bool
    decreases coins.len(),
{
    if coins.len() == 0 || picks.len() != coins.len() {
        false
    } else {
        sidewinder_wastes(width, height, coins.drop_last(), picks.drop_last()) || wasted_close(
            width,
            height,
            sidewinder_carve(width, height, coins.drop_last(), picks.drop_last()).run,
            cell_at(width, coins.len() - 1),
            coins.last(),
            picks.last() as int,
        )
    }
}

/// Whether cell `(x, y)` comes at or after cell `(fx, fy)` in row-major order.
spec fn at_or_after(x: int, y: int, fx: int, fy: int) -> bool {
    y > fy || (y == fy && x >= fx)
}

/// Whether cell `(x, y)` has a way up: along open east walls to a column `c`
/// of its row whose north wall is open.
spec fn settled(g: Grid, x: int, y: int) -> bool {
    exists|c: int|
        0 <= c < g.width && #[trigger] g.is_passage(g.north_wall(c, y)) && forall|j: int|
            (x <= j < c || c <= j < x) ==> g.is_passage(#[trigger] g.east_wall(j, y))
}

/// What holds of the sidewinder procedure before it visits cell `(kx, ky)`,
/// the `k`-th in row-major order, where `wasted` tells whether an earlier
/// step was a wasted close.
spec fn carving(w: int, h: int, k: int, kx: int, ky: int, s: Sidewinder, wasted: bool) -> bool {
    let g = s.grid;
    let len = s.run.len() as int;
    let due = k - (if ky == h { 1int } else { 0int });
    &&& g.wf() && g.width == w && g.height == h
    &&& 0 <= kx < w && 0 <= ky <= h && (ky == h ==> kx == 0) && k == ky * w + kx
    &&& len <= kx
    &&& forall|j: int|
        0 <= j < len ==> #[trigger] s.run[j] == (MazeCell { x: (kx - len + j) as u32, y: ky as u32 })
    &&& forall|x: int, y: int|
        g.has_cell(x, y) && at_or_after(x, y, kx - len, ky) ==> !g.is_passage(
            #[trigger] g.north_wall(x, y),
        )
    &&& forall|x: int, y: int|
        g.has_cell(x, y) && at_or_after(x, y, kx, ky) ==> !g.is_passage(#[trigger] g.east_wall(x, y))
    &&& forall|x: int| kx - len <= x < kx ==> g.is_passage(#[trigger] g.east_wall(x, ky))
    &&& forall|x: int, y: int|
        g.has_cell(x, y) && y + 1 < h && !at_or_after(x, y, kx - len, ky) ==> #[trigger] settled(
            g,
            x,
            y,
        )
    &&& !wasted ==> forall|x: int|
        0 <= x && x + 1 < w && !at_or_after(x, h - 1, kx, ky) ==> g.is_passage(
            #[trigger] g.east_wall(x, h - 1),
        )
    &&& open_count(g.walls) <= due
    &&& !wasted <==> open_count(g.walls) == due
}

/// Opening a slot keeps every passage, changes no other slot, and raises the
/// count by one if the wall was closed.
proof fn lemma_with_open(g: Grid, index: Option<int>)
    requires
        g.wf(),
        index matches Some(i) ==> 0 <= i < g.walls.len(),
    ensures
        g.with_open(index).wf(),
        g.with_open(index).width == g.width,
        g.with_open(index).height == g.height,
        index is Some ==> g.with_open(index).is_passage(index),
        forall|other: Option<int>|
            other != index ==> (#[trigger] g.with_open(index).is_passage(other) <==> g.is_passage(
                other,
            )),
        forall|other: Option<int>|
            g.is_passage(other) ==> #[trigger] g.with_open(index).is_passage(other),
        g.is_passage(index) || index is None ==> g.with_open(index) == g,
        open_count(g.with_open(index).walls) == open_count(g.walls) + (if index is Some
            && !g.is_passage(index) {
            1int
        } else {
            0int
        }),
{
    match index {
        Some(i) => {
            if g.walls[i] == Wall::Open {
                assert(g.with_open(index).walls =~= g.walls);
            } else {
                lemma_open_count_update(g.walls, i);
            }
        },
        None => {},
    }
}

/// A cell that has a way up keeps it when more walls are opened.
proof fn lemma_settled_stays(g: Grid, after: Grid, x: int, y: int)
    requires
        settled(g, x, y),
        after.width == g.width,
        after.height == g.height,
        forall|other: Option<int>| g.is_passage(other) ==> #[trigger] after.is_passage(other),
    ensures
        settled(after, x, y),
{
    let c = choose|c: int|
        0 <= c < g.width && #[trigger] g.is_passage(g.north_wall(c, y)) && forall|j: int|
            (x <= j < c || c <= j < x) ==> g.is_passage(#[trigger] g.east_wall(j, y));
    assert(after.is_passage(after.north_wall(c, y)));
    assert forall|j: int| (x <= j < c || c <= j < x) implies after.is_passage(
        #[trigger] after.east_wall(j, y),
    ) by {
        assert(g.is_passage(g.east_wall(j, y)));
    }
}

/// One step of the procedure keeps what `carving` says.
proof fn lemma_step(
    w: int,
    h: int,
    k: int,
    kx: int,
    ky: int,
    s: Sidewinder,
    wasted: bool,
    coin: bool,
    pick: int,
)
    requires
        carving(w, h, k, kx, ky, s, wasted),
        ky < h,
        0 <= pick,
    ensures
        carving(
            w,
            h,
            k + 1,
            if kx + 1 < w { kx + 1 } else { 0 },
            if kx + 1 < w { ky } else { ky + 1 },
            sidewinder_step(s, MazeCell { x: kx as u32, y: ky as u32 }, coin, pick),
            wasted || wasted_close(
                w as nat,
                h as nat,
                s.run,
                MazeCell { x: kx as u32, y: ky as u32 },
                coin,
                pick,
            ),
        ),
{
    let g = s.grid;
    let len = s.run.len() as int;
    let cell = MazeCell { x: kx as u32, y: ky as u32 };
    let run1 = s.run.push(cell);
    let next = sidewinder_step(s, cell, coin, pick);
    let g2 = next.grid;
    let len2 = next.run.len() as int;
    let nx = if kx + 1 < w { kx + 1 } else { 0 };
    let ny = if kx + 1 < w { ky } else { ky + 1 };
    let wasted2 = wasted || wasted_close(w as nat, h as nat, s.run, cell, coin, pick);
    let idx = pick % (len + 1);
    let ox = if coin { kx - len + idx } else { kx };
    assert(0 <= idx <= len);
    assert(run1[idx] == (MazeCell { x: (kx - len + idx) as u32, y: ky as u32 })) by {
        if idx < len {
            assert(run1[idx] == s.run[idx]);
        }
    }
    g.north_wall_in_range(ox, ky);
    g.east_wall_in_range(ox, ky);
    let slot: Option<int> = if coin {
        if g.north_wall(ox, ky) is Some {
            g.north_wall(ox, ky)
        } else {
            g.east_wall(ox, ky)
        }
    } else {
        if g.east_wall(ox, ky) is Some {
            g.east_wall(ox, ky)
        } else {
            g.north_wall(ox, ky)
        }
    };
    assert(g2 == g.with_open(slot));
    lemma_with_open(g, slot);
    assert((ky + 1) * w == ky * w + w) by (nonlinear_arith);
    assert(nx - len2 == (if coin || kx + 1 == w { nx } else { kx - len }));

    assert forall|j: int| 0 <= j < len2 implies #[trigger] next.run[j] == (MazeCell {
        x: (nx - len2 + j) as u32,
        y: ny as u32,
    }) by {
        if j < len {
            assert(next.run[j] == s.run[j]);
        }
    }

    assert forall|x: int, y: int|
        g2.has_cell(x, y) && at_or_after(x, y, nx - len2, ny) implies !g2.is_passage(
        #[trigger] g2.north_wall(x, y),
    ) by {
        g.slots_are_distinct(x, y, ox, ky);
        g.slots_are_distinct(ox, ky, x, y);
        g.north_wall_in_range(x, y);
        assert(!g.is_passage(g.north_wall(x, y)));
    }

    assert forall|x: int, y: int|
        g2.has_cell(x, y) && at_or_after(x, y, nx, ny) implies !g2.is_passage(
        #[trigger] g2.east_wall(x, y),
    ) by {
        g.slots_are_distinct(x, y, ox, ky);
        g.slots_are_distinct(ox, ky, x, y);
        g.east_wall_in_range(x, y);
        assert(!g.is_passage(g.east_wall(x, y)));
    }

    assert forall|x: int| nx - len2 <= x < nx implies g2.is_passage(
        #[trigger] g2.east_wall(x, ny),
    ) by {
        if x < kx {
            assert(g.is_passage(g.east_wall(x, ky)));
        }
    }

    assert forall|x: int, y: int|
        g2.has_cell(x, y) && y + 1 < h && !at_or_after(x, y, nx - len2, ny) implies #[trigger] settled(
        g2,
        x,
        y,
    ) by {
        if !at_or_after(x, y, kx - len, ky) {
            assert(settled(g, x, y));
            lemma_settled_stays(g, g2, x, y);
        } else {
            // a cell of the run that this step has closed below the top row
            assert(y == ky && kx - len <= x <= kx);
            assert(g2.is_passage(g2.north_wall(ox, ky)));
            assert forall|j: int| (x <= j < ox || ox <= j < x) implies g2.is_passage(
                #[trigger] g2.east_wall(j, y),
            ) by {
                assert(g.is_passage(g.east_wall(j, ky)));
            }
        }
    }

    if !wasted2 {
        assert forall|x: int| 0 <= x && x + 1 < w && !at_or_after(x, h - 1, nx, ny) implies g2.is_passage(
            #[trigger] g2.east_wall(x, h - 1),
        ) by {
            if !at_or_after(x, h - 1, kx, ky) {
                assert(g.is_passage(g.east_wall(x, h - 1)));
            }
        }
    }
}

/// `carving` holds of every prefix of the procedure.
proof fn lemma_carving(width: nat, height: nat, coins: Seq<bool>, picks: Seq<usize>)
    requires
        Grid::closed(width, height).wf(),
        picks.len() == coins.len(),
        coins.len() <= width * height,
    ensures
        carving(
            width as int,
            height as int,
            coins.len() as int,
            coins.len() as int % width as int,
            coins.len() as int / width as int,
            sidewinder_carve(width, height, coins, picks),
            sidewinder_wastes(width, height, coins, picks),
        ),
    decreases coins.len(),
{
    let w = width as int;
    let h = height as int;
    if coins.len() == 0 {
        let g = Grid::closed(width, height);
        lemma_open_count_closed(g.walls);
        lemma_fundamental_div_mod_converse(0, w, 0, 0);
    } else {
        let before = coins.drop_last();
        let drawn = picks.drop_last();
        let k = before.len() as int;
        lemma_carving(width, height, before, drawn);
        lemma_cell_in_grid(width, height, k);
        let kx = k % w;
        let ky = k / w;
        let s = sidewinder_carve(width, height, before, drawn);
        let wasted = sidewinder_wastes(width, height, before, drawn);
        lemma_step(w, h, k, kx, ky, s, wasted, coins.last(), picks.last() as int);
        let nx = if kx + 1 < w { kx + 1 } else { 0 };
        let ny = if kx + 1 < w { ky } else { ky + 1 };
        assert((ky + 1) * w == ky * w + w) by (nonlinear_arith);
        lemma_fundamental_div_mod_converse(k + 1, w, ny, nx);
        assert(cell_at(width, k) == (MazeCell { x: kx as u32, y: ky as u32 }));
    }
}

/// Whether the top row is one corridor and every cell below it has a way up.
spec fn hangs_together(g: Grid) -> bool {
    &&& g.wf()
    &&& forall|x: int|
        0 <= x && x + 1 < g.width ==> g.is_passage(#[trigger] g.east_wall(x, g.height - 1))
    &&& forall|x: int, y: int| g.has_cell(x, y) && y + 1 < g.height ==> #[trigger] settled(g, x, y)
}

/// Two cells of a row are joined when the east walls between them are open.
proof fn lemma_along_row(g: Grid, x: int, c: int, y: int)
    requires
        g.wf(),
        g.has_cell(x, y),
        g.has_cell(c, y),
        forall|j: int| (x <= j < c || c <= j < x) ==> g.is_passage(#[trigger] g.east_wall(j, y)),
    ensures
        joined(g, MazeCell { x: x as u32, y: y as u32 }, MazeCell { x: c as u32, y: y as u32 }),
        joined(g, MazeCell { x: c as u32, y: y as u32 }, MazeCell { x: x as u32, y: y as u32 }),
    decreases
            if x <= c {
                c - x
            } else {
                x - c
            },
{
    let a = MazeCell { x: x as u32, y: y as u32 };
    let b = MazeCell { x: c as u32, y: y as u32 };
    if x == c {
        lemma_joined_self(g, a);
    } else {
        let m = if x < c { x + 1 } else { x - 1 };
        let mid = MazeCell { x: m as u32, y: y as u32 };
        if x < c {
            assert(g.is_passage(g.east_wall(x, y)));
        } else {
            assert(g.is_passage(g.east_wall(x - 1, y)));
        }
        assert(linked(g, a, mid));
        lemma_joined_step(g, a, mid);
        lemma_along_row(g, m, c, y);
        lemma_joined_trans(g, a, mid, b);
        lemma_joined_trans(g, b, mid, a);
    }
}

/// In a grid that hangs together every cell is joined to the north-east corner.
proof fn lemma_reaches_corner(g: Grid, a: MazeCell)
    requires
        hangs_together(g),
        g.has_cell(a.x as int, a.y as int),
    ensures
        joined(g, a, MazeCell { x: (g.width - 1) as u32, y: (g.height - 1) as u32 }),
        joined(g, MazeCell { x: (g.width - 1) as u32, y: (g.height - 1) as u32 }, a),
    decreases g.height - a.y,
{
    let corner = MazeCell { x: (g.width - 1) as u32, y: (g.height - 1) as u32 };
    let x = a.x as int;
    let y = a.y as int;
    if y + 1 == g.height {
        lemma_along_row(g, x, g.width - 1, y);
    } else {
        assert(settled(g, x, y));
        let c = choose|c: int|
            0 <= c < g.width && #[trigger] g.is_passage(g.north_wall(c, y)) && forall|j: int|
                (x <= j < c || c <= j < x) ==> g.is_passage(#[trigger] g.east_wall(j, y));
        lemma_along_row(g, x, c, y);
        let below = MazeCell { x: c as u32, y: y as u32 };
        let above = MazeCell { x: c as u32, y: (y + 1) as u32 };
        assert(linked(g, below, above));
        lemma_joined_step(g, below, above);
        lemma_reaches_corner(g, above);
        lemma_joined_trans(g, a, below, above);
        lemma_joined_trans(g, a, above, corner);
        lemma_joined_trans(g, above, below, a);
        lemma_joined_trans(g, corner, above, a);
    }
}

/// The sidewinder procedure yields a perfect maze exactly when no step is a
/// wasted close. Then the finished maze is connected and has one open wall per
/// cell but one; otherwise it has fewer open walls than a spanning tree needs.
pub proof fn sidewinder_is_perfect_unless_wasted(
    width: nat,
    height: nat,
    coins: Seq<bool>,
    picks: Seq<usize>,
)
    requires
        Grid::closed(width, height).wf(),
        coins.len() == width * height,
        picks.len() == width * height,
    ensures
        sidewinder_carve(width, height, coins, picks).grid.wf(),
        sidewinder_carve(width, height, coins, picks).grid.width == width,
        sidewinder_carve(width, height, coins, picks).grid.height == height,
        perfect(sidewinder_carve(width, height, coins, picks).grid) <==> !sidewinder_wastes(
            width,
            height,
            coins,
            picks,
        ),
        open_count(sidewinder_carve(width, height, coins, picks).grid.walls) <= width * height - 1,
{
    let w = width as int;
    let h = height as int;
    let g = sidewinder_carve(width, height, coins, picks).grid;
    lemma_carving(width, height, coins, picks);
    assert(w * h == h * w + 0) by (nonlinear_arith);
    lemma_fundamental_div_mod_converse(w * h, w, h, 0);
    if !sidewinder_wastes(width, height, coins, picks) {
        let corner = MazeCell { x: (width - 1) as u32, y: (height - 1) as u32 };
        assert(hangs_together(g));
        assert forall|a: MazeCell, b: MazeCell|
            g.has_cell(a.x as int, a.y as int) && g.has_cell(b.x as int, b.y as int) implies #[trigger] joined(
            g,
            a,
            b,
        ) by {
            lemma_reaches_corner(g, a);
            lemma_reaches_corner(g, b);
            lemma_joined_trans(g, a, corner, b);
        }
    }
}

} // verus!
