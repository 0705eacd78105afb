use maze::get_corner;
use maze::random::weighted_coin;
use maze::{Maze, MazeCell, MazeError, MazeIterator, MovementOptions, Wall};

const CLOSED_3X3: &str = "┌───┬───┬───┐\n\
│   │   │   │\n\
├───┼───┼───┤\n\
│   │   │   │\n\
├───┼───┼───┤\n\
│   │   │   │\n\
└───┴───┴───┘";

const NORTH_BIASED_3X3: &str = "┌───────────┐\n\
│           │\n\
│   ╷   ╷   │\n\
│   │   │   │\n\
│   │   │   │\n\
│   │   │   │\n\
└───┴───┴───┘";

const EAST_BIASED_3X3: &str = "┌───────────┐\n\
│           │\n\
├───────╴   │\n\
│           │\n\
├───────╴   │\n\
│           │\n\
└───────────┘";

fn open_walls(maze: &Maze) -> usize {
    (0..maze.wall_count())
        .filter(|&i| maze.wall_at(i) == Wall::Open)
        .count()
}

fn reachable_from_origin(maze: &Maze) -> usize {
    let width = maze.width() as usize;
    let mut seen = vec![false; width * maze.height() as usize];
    let mut todo = vec![MazeCell::new(0, 0)];
    seen[0] = true;
    let mut count = 0;
    while let Some(cell) = todo.pop() {
        count += 1;
        let options = maze.get_movement_options_for(cell);
        for next in [options.north, options.east, options.south, options.west] {
            if let Some(next) = next {
                let at = next.y as usize * width + next.x as usize;
                if !seen[at] {
                    seen[at] = true;
                    todo.push(next);
                }
            }
        }
    }
    count
}

fn is_perfect(maze: &Maze) -> bool {
    let cells = (maze.width() * maze.height()) as usize;
    reachable_from_origin(maze) == cells && open_walls(maze) == cells - 1
}

#[test]
fn new_3x3() {
    let maze = Maze::new(3, 3).unwrap();

    assert_eq!(CLOSED_3X3, maze.render());
}

#[test]
fn wall_indexes_for_cell_00() {
    let maze = Maze::new(3, 3).unwrap();
    let x = 0;
    let y = 0;

    assert_eq!(Some(0), maze.north_wall_index_for_cell(x, y));
    assert_eq!(Some(6), maze.east_wall_index_for_cell(x, y));
    assert_eq!(None, maze.south_wall_index_for_cell(x, y));
    assert_eq!(None, maze.west_wall_index_for_cell(x, y));
}

#[test]
fn wall_indexes_for_cell_11() {
    let maze = Maze::new(3, 3).unwrap();
    let x = 1;
    let y = 1;

    assert_eq!(Some(4), maze.north_wall_index_for_cell(x, y));
    assert_eq!(Some(10), maze.east_wall_index_for_cell(x, y));
    assert_eq!(Some(1), maze.south_wall_index_for_cell(x, y));
    assert_eq!(Some(7), maze.west_wall_index_for_cell(x, y));
}

#[test]
fn wall_indexes_for_cell_22() {
    let maze = Maze::new(3, 3).unwrap();
    let x = 2;
    let y = 2;

    assert_eq!(None, maze.north_wall_index_for_cell(x, y));
    assert_eq!(None, maze.east_wall_index_for_cell(x, y));
    assert_eq!(Some(5), maze.south_wall_index_for_cell(x, y));
    assert_eq!(Some(11), maze.west_wall_index_for_cell(x, y));
}

#[test]
fn open_north_wall() {
    let mut maze = Maze::new(3, 3).unwrap();
    let mut maze_iter = MazeIterator::new(&maze);
    let cell = maze_iter.next().unwrap();

    maze.open_north_wall(cell).unwrap();

    assert_eq!(
        "┌───┬───┬───┐\n\
│   │   │   │\n\
├───┼───┼───┤\n\
│   │   │   │\n\
│   ├───┼───┤\n\
│   │   │   │\n\
└───┴───┴───┘",
        maze.render()
    );
}

#[test]
fn open_east_wall() {
    let mut maze = Maze::new(3, 3).unwrap();
    let mut maze_iter = MazeIterator::new(&maze);
    let cell = maze_iter.next().unwrap();

    maze.open_east_wall(cell).unwrap();

    assert_eq!(
        "┌───┬───┬───┐\n\
│   │   │   │\n\
├───┼───┼───┤\n\
│   │   │   │\n\
├───┴───┼───┤\n\
│       │   │\n\
└───────┴───┘",
        maze.render()
    );
}

#[test]
fn next_cell_open_north_wall() {
    let mut maze = Maze::new(3, 3).unwrap();
    let mut maze_iter = MazeIterator::new(&maze);
    maze_iter.next().unwrap(); // skip the first cell
    let cell = maze_iter.next().unwrap();

    maze.open_north_wall(cell).unwrap();

    assert_eq!(
        "┌───┬───┬───┐\n\
│   │   │   │\n\
├───┼───┼───┤\n\
│   │   │   │\n\
├───┤   ├───┤\n\
│   │   │   │\n\
└───┴───┴───┘",
        maze.render()
    );
}

#[test]
fn next_cell_open_east_wall() {
    let mut maze = Maze::new(3, 3).unwrap();
    let mut maze_iter = MazeIterator::new(&maze);
    maze_iter.next().unwrap(); // skip the first cell
    let cell = maze_iter.next().unwrap();

    maze.open_east_wall(cell).unwrap();

    assert_eq!(
        "┌───┬───┬───┐\n\
│   │   │   │\n\
├───┼───┼───┤\n\
│   │   │   │\n\
├───┼───┴───┤\n\
│   │       │\n\
└───┴───────┘",
        maze.render()
    );
}

#[test]
fn move_to_next_cell_wraps() {
    let maze = Maze::new(3, 3).unwrap();
    let mut maze_iter = MazeIterator::new(&maze);
    maze_iter.next().unwrap(); // Position: 0, 0
    maze_iter.next().unwrap(); // Position: 1, 0
    maze_iter.next().unwrap(); // Position: 2, 0
    let cell = maze_iter.next().unwrap(); // Position: 0, 1

    assert_eq!(0, cell.x);
    assert_eq!(1, cell.y);
}

#[test]
fn move_to_next_cell_returns_none() {
    let maze = Maze::new(3, 3).unwrap();
    let mut maze_iter = MazeIterator::new(&maze);
    maze_iter.next().unwrap(); // Position: 0, 0
    maze_iter.next().unwrap(); // Position: 1, 0
    maze_iter.next().unwrap(); // Position: 2, 0
    maze_iter.next().unwrap(); // Position: 0, 1
    maze_iter.next().unwrap(); // Position: 1, 1
    maze_iter.next().unwrap(); // Position: 2, 1
    maze_iter.next().unwrap(); // Position: 0, 2
    maze_iter.next().unwrap(); // Position: 1, 2
    maze_iter.next().unwrap(); // Position: 2, 2
    let cell = maze_iter.next();

    assert!(cell.is_none());
}

#[test]
fn binary_tree_all_true() {
    let mock_rand_bool = || true;
    let maze = Maze::binary_tree_with_rand_fn(3, 3, mock_rand_bool).unwrap();

    assert_eq!(NORTH_BIASED_3X3, maze.render());
}

#[test]
fn binary_tree_all_false() {
    let mock_rand_bool = || false;
    let maze = Maze::binary_tree_with_rand_fn(3, 3, mock_rand_bool).unwrap();

    assert_eq!(EAST_BIASED_3X3, maze.render());
}

#[test]
fn binary_tree_alternating_bool() {
    let mut val = false;
    let mock_rand_bool = || {
        val = !val;
        val
    };
    let maze = Maze::binary_tree_with_rand_fn(3, 3, mock_rand_bool).unwrap();

    assert_eq!(
        "┌───────────┐\n\
│           │\n\
├───╴   ╷   │\n\
│       │   │\n\
│   ┌───┘   │\n\
│   │       │\n\
└───┴───────┘",
        maze.render()
    );
}

#[test]
fn sidewinder_all_true() {
    let mock_rand_bool = || true;
    let mock_rand_u32 = || 0_usize;
    let maze = Maze::sidewinder_with_rand_fn(3, 3, mock_rand_bool, mock_rand_u32).unwrap();

    assert_eq!(NORTH_BIASED_3X3, maze.render());
}

#[test]
fn sidewinder_all_false() {
    let mock_rand_bool = || false;
    let mock_rand_u32 = || 0_usize;
    let maze = Maze::sidewinder_with_rand_fn(3, 3, mock_rand_bool, mock_rand_u32).unwrap();

    assert_eq!(EAST_BIASED_3X3, maze.render());
}

#[test]
fn sidewinder_alternating_bool_0usize() {
    let mut val = false;
    let mock_rand_bool = || {
        val = !val;
        val
    };
    let mock_rand_u32 = || 0_usize;
    let maze = Maze::sidewinder_with_rand_fn(3, 3, mock_rand_bool, mock_rand_u32).unwrap();

    assert_eq!(
        "┌───────────┐\n\
│           │\n\
│   ╶───┐   │\n\
│       │   │\n\
│   ╷   └───┤\n\
│   │       │\n\
└───┴───────┘",
        maze.render()
    );
}

fn build_sidewinder_alternating_bool_1usize() -> Maze {
    let mut val = false;
    let mock_rand_bool = || {
        val = !val;
        val
    };
    let mock_rand_u32 = || 1_usize;
    Maze::sidewinder_with_rand_fn(3, 3, mock_rand_bool, mock_rand_u32).unwrap()
}

#[test]
fn sidewinder_alternating_bool_1usize() {
    let maze = build_sidewinder_alternating_bool_1usize();

    assert_eq!(
        "┌───────────┐\n\
│           │\n\
├───╴   ╷   │\n\
│       │   │\n\
│   ┌───┘   │\n\
│   │       │\n\
└───┴───────┘",
        maze.render()
    );
}

#[test]
fn get_movement_options_for_sidewinder_00() {
    let maze = build_sidewinder_alternating_bool_1usize();

    let cell = MazeCell::new(0, 0);
    let expected_movement_options =
        MovementOptions::new(Some(MazeCell::new(0, 1)), None, None, None);
    assert_eq!(
        expected_movement_options,
        maze.get_movement_options_for(cell)
    );
}

#[test]
fn new_maze_has_every_wall_closed() {
    for (width, height) in [(1u32, 1u32), (1, 5), (4, 1), (4, 3), (7, 9)] {
        let maze = Maze::new(width, height).unwrap();
        let expected = ((width - 1) * height + (height - 1) * width) as usize;
        assert_eq!(expected, maze.wall_count());
        assert_eq!(width, maze.width());
        assert_eq!(height, maze.height());
        for i in 0..maze.wall_count() {
            assert_eq!(Wall::Closed, maze.wall_at(i));
        }
    }
    assert_eq!(17, Maze::new(4, 3).unwrap().wall_count());
}

#[test]
fn new_rejects_empty_dimensions() {
    assert_eq!(Some(MazeError::InvalidDimension), Maze::new(0, 3).err());
    assert_eq!(Some(MazeError::InvalidDimension), Maze::new(3, 0).err());
    assert_eq!(Some(MazeError::InvalidDimension), Maze::new(0, 0).err());
    assert_eq!(
        Some(MazeError::InvalidDimension),
        Maze::binary_tree_with_rand_fn(0, 2, || true).err()
    );
    assert_eq!(
        Some(MazeError::InvalidDimension),
        Maze::sidewinder_with_rand_fn(2, 0, || true, || 0_usize).err()
    );
    assert_eq!(Some(MazeError::InvalidDimension), Maze::binary_tree(0, 1).err());
    assert_eq!(Some(MazeError::InvalidDimension), Maze::sidewinder(1, 0).err());
}

#[test]
fn neighbours_share_their_wall() {
    let maze = Maze::new(5, 4).unwrap();
    for y in 0..4 {
        for x in 0..5 {
            if y + 1 < 4 {
                assert_eq!(
                    maze.north_wall_index_for_cell(x, y),
                    maze.south_wall_index_for_cell(x, y + 1)
                );
            }
            if x + 1 < 5 {
                assert_eq!(
                    maze.east_wall_index_for_cell(x, y),
                    maze.west_wall_index_for_cell(x + 1, y)
                );
            }
        }
    }
    assert_eq!(Some(7), maze.north_wall_index_for_cell(2, 1));
    assert_eq!(Some(15 + 3 + 2 * 4), maze.east_wall_index_for_cell(2, 3));
}

#[test]
fn every_wall_has_its_own_slot() {
    let maze = Maze::new(5, 4).unwrap();
    let mut seen = vec![false; maze.wall_count()];
    for y in 0..4 {
        for x in 0..5 {
            for index in [
                maze.north_wall_index_for_cell(x, y),
                maze.east_wall_index_for_cell(x, y),
            ] {
                if let Some(i) = index {
                    assert!(!seen[i]);
                    seen[i] = true;
                }
            }
        }
    }
    assert!(seen.iter().all(|&s| s));
}

#[test]
fn opening_an_edge_wall_is_refused() {
    let mut maze = Maze::new(3, 2).unwrap();
    assert_eq!(Err(MazeError::EdgeWall), maze.open_north_wall(MazeCell::new(1, 1)));
    assert_eq!(Err(MazeError::EdgeWall), maze.open_east_wall(MazeCell::new(2, 0)));
    assert_eq!(0, open_walls(&maze));
    assert_eq!(Ok(()), maze.open_north_wall(MazeCell::new(1, 0)));
    assert_eq!(Ok(()), maze.open_east_wall(MazeCell::new(1, 1)));
    assert_eq!(2, open_walls(&maze));
}

#[test]
fn opening_twice_changes_nothing_more() {
    let mut maze = Maze::new(3, 3).unwrap();
    maze.open_north_wall(MazeCell::new(1, 1)).unwrap();
    let once = maze.render();
    assert_eq!(Wall::Open, maze.wall_at(4));
    assert_eq!(Ok(()), maze.open_north_wall(MazeCell::new(1, 1)));
    assert_eq!(Wall::Open, maze.wall_at(4));
    assert_eq!(1, open_walls(&maze));
    assert_eq!(once, maze.render());
    maze.open_east_wall(MazeCell::new(0, 2)).unwrap();
    maze.open_east_wall(MazeCell::new(0, 2)).unwrap();
    assert_eq!(Wall::Open, maze.wall_at(8));
    assert_eq!(2, open_walls(&maze));
}

#[test]
fn cells_come_in_row_major_order() {
    let maze = Maze::new(3, 2).unwrap();
    let mut maze_iter = MazeIterator::new(&maze);
    let mut seen = Vec::new();
    while let Some(cell) = maze_iter.next() {
        seen.push((cell.x, cell.y));
    }
    assert_eq!(vec![(0, 0), (1, 0), (2, 0), (0, 1), (1, 1), (2, 1)], seen);
    assert!(maze_iter.next().is_none());
    assert!(maze_iter.next().is_none());
}

#[test]
fn single_cell_maze() {
    let maze = Maze::new(1, 1).unwrap();
    assert_eq!(0, maze.wall_count());
    assert_eq!("┌───┐\n│   │\n└───┘", maze.render());
    let carved = Maze::binary_tree_with_rand_fn(1, 1, || true).unwrap();
    assert_eq!("┌───┐\n│   │\n└───┘", carved.render());
    let carved = Maze::sidewinder_with_rand_fn(1, 1, || true, || 5_usize).unwrap();
    assert_eq!("┌───┐\n│   │\n└───┘", carved.render());
    assert_eq!(
        MovementOptions::new(None, None, None, None),
        maze.get_movement_options_for(MazeCell::new(0, 0))
    );
}

#[test]
fn wide_maze_keeps_width_and_height_apart() {
    let mut val = false;
    let maze = Maze::binary_tree_with_rand_fn(4, 2, || {
        val = !val;
        val
    })
    .unwrap();
    assert_eq!(4, maze.width());
    assert_eq!(2, maze.height());
    assert_eq!(
        "┌───────────────┐\n\
│               │\n\
│   ┌───╴   ╷   │\n\
│   │       │   │\n\
└───┴───────┴───┘",
        maze.render()
    );
    let mut val = false;
    let maze = Maze::sidewinder_with_rand_fn(
        4,
        2,
        || {
            val = !val;
            val
        },
        || 3_usize,
    )
    .unwrap();
    assert_eq!(
        "┌───────────────┐\n\
│               │\n\
│   ┌───╴   ╷   │\n\
│   │       │   │\n\
└───┴───────┴───┘",
        maze.render()
    );
}

#[test]
fn corners_outside_the_lattice() {
    let maze = Maze::new(3, 2).unwrap();
    assert_eq!(None, get_corner(&maze, 4, 0));
    assert_eq!(None, get_corner(&maze, 0, 3));
    assert_eq!(Some("└"), get_corner(&maze, 0, 0));
    assert_eq!(Some("┌"), get_corner(&maze, 0, 2));
    assert_eq!(Some("┘"), get_corner(&maze, 3, 0));
    assert_eq!(Some("┐"), get_corner(&maze, 3, 2));
    assert_eq!(Some("├"), get_corner(&maze, 0, 1));
    assert_eq!(Some("┤"), get_corner(&maze, 3, 1));
    assert_eq!(Some("┴"), get_corner(&maze, 1, 0));
    assert_eq!(Some("┬"), get_corner(&maze, 2, 2));
    assert_eq!(Some("┼"), get_corner(&maze, 1, 1));
}

#[test]
fn every_junction_glyph() {
    // walls round lattice point (1, 1) of a 2x2 grid: up 3, right 1, down 2, left 0
    let expected = [
        "┼", "├", "┤", "│", "┴", "└", "┘", "╵", "┬", "┌", "┐", "╷", "─", "╶", "╴", " ",
    ];
    for mask in 0..16usize {
        let mut maze = Maze::new(2, 2).unwrap();
        if mask & 1 != 0 {
            maze.open_north_wall(MazeCell::new(0, 0)).unwrap();
        }
        if mask & 2 != 0 {
            maze.open_north_wall(MazeCell::new(1, 0)).unwrap();
        }
        if mask & 4 != 0 {
            maze.open_east_wall(MazeCell::new(0, 0)).unwrap();
        }
        if mask & 8 != 0 {
            maze.open_east_wall(MazeCell::new(0, 1)).unwrap();
        }
        assert_eq!(Some(expected[mask]), get_corner(&maze, 1, 1), "mask {}", mask);
    }
}

#[test]
fn binary_tree_mazes_are_perfect() {
    for (width, height) in [(1u32, 1u32), (1, 6), (6, 1), (2, 2), (5, 4), (9, 7)] {
        let maze = Maze::binary_tree(width, height).unwrap();
        assert_eq!(width, maze.width());
        assert_eq!(height, maze.height());
        assert_eq!((width * height - 1) as usize, open_walls(&maze));
        assert_eq!((width * height) as usize, reachable_from_origin(&maze));
    }
    let mut count = 0u32;
    let maze = Maze::binary_tree_with_rand_fn(7, 5, || {
        count += 1;
        count % 3 == 1 || count % 5 == 2
    })
    .unwrap();
    assert_eq!(35, count);
    assert!(is_perfect(&maze));
}

#[test]
fn binary_tree_alternating_from_tails() {
    let mut val = true;
    let maze = Maze::binary_tree_with_rand_fn(3, 3, || {
        val = !val;
        val
    })
    .unwrap();
    assert_eq!(
        "┌───────────┐\n\
│           │\n\
│   ┌───╴   │\n\
│   │       │\n\
├───┘   ╷   │\n\
│       │   │\n\
└───────┴───┘",
        maze.render()
    );
    assert!(is_perfect(&maze));
}

#[test]
fn sidewinder_with_default_randomness_never_opens_too_much() {
    for (width, height) in [(1u32, 1u32), (2, 2), (2, 9), (6, 5)] {
        let maze = Maze::sidewinder(width, height).unwrap();
        assert_eq!(width, maze.width());
        assert_eq!(height, maze.height());
        let cells = (width * height) as usize;
        assert!(open_walls(&maze) <= cells - 1);
        // with fewer than three columns no run can be closed behind its last cell
        if width <= 2 {
            assert!(is_perfect(&maze));
        }
    }
}

#[test]
fn sidewinder_closing_every_run_at_once_is_perfect() {
    let maze = Maze::sidewinder_with_rand_fn(5, 4, || true, || 7_usize).unwrap();
    assert_eq!(
        "┌───────────────────┐\n\
│                   │\n\
│   ╷   ╷   ╷   ╷   │\n\
│   │   │   │   │   │\n\
│   │   │   │   │   │\n\
│   │   │   │   │   │\n\
│   │   │   │   │   │\n\
│   │   │   │   │   │\n\
└───┴───┴───┴───┴───┘",
        maze.render()
    );
    assert!(is_perfect(&maze));
}

#[test]
fn sidewinder_draws_a_pick_only_on_heads() {
    let mut coins = 0usize;
    let mut picks = 0usize;
    let maze = Maze::sidewinder_with_rand_fn(
        5,
        4,
        || {
            coins += 1;
            coins % 3 == 0
        },
        || {
            picks += 1;
            0_usize
        },
    )
    .unwrap();
    assert_eq!(20, coins);
    assert_eq!(6, picks);
    assert_eq!(
        "┌───────────┬───────┐\n\
│           │       │\n\
│   ╶───┐   └───────┤\n\
│       │           │\n\
│   ╷   └───────┐   │\n\
│   │           │   │\n\
│   └───────┬───┘   │\n\
│           │       │\n\
└───────────┴───────┘",
        maze.render()
    );
    // the run of the top row was closed at its first cell: one wall is missing
    assert_eq!(18, open_walls(&maze));
    assert!(!is_perfect(&maze));
}

#[test]
fn sidewinder_alternating_from_tails() {
    let mut val = true;
    let maze = Maze::sidewinder_with_rand_fn(
        3,
        3,
        || {
            val = !val;
            val
        },
        || 0_usize,
    )
    .unwrap();
    assert_eq!(
        "┌───────┬───┐\n\
│       │   │\n\
│   ╷   └───┤\n\
│   │       │\n\
│   └───┐   │\n\
│       │   │\n\
└───────┴───┘",
        maze.render()
    );
    assert_eq!(7, open_walls(&maze));
    assert!(!is_perfect(&maze));

    let mut val = true;
    let maze = Maze::sidewinder_with_rand_fn(
        3,
        3,
        || {
            val = !val;
            val
        },
        || 1_usize,
    )
    .unwrap();
    assert_eq!(
        "┌───────────┐\n\
│           │\n\
│   ┌───╴   │\n\
│   │       │\n\
├───┘   ╷   │\n\
│       │   │\n\
└───────┴───┘",
        maze.render()
    );
    assert!(is_perfect(&maze));
}

#[test]
fn sidewinder_top_row_pick_can_leave_a_wall_standing() {
    // a single row, coins tails, heads, tails: the pick selects the first
    // cell of the run, whose east wall is open already
    let coins = [false, true, false];
    let mut at = 0usize;
    let maze = Maze::sidewinder_with_rand_fn(
        3,
        1,
        || {
            at += 1;
            coins[at - 1]
        },
        || 0_usize,
    )
    .unwrap();
    assert_eq!(1, open_walls(&maze));
    assert_eq!(2, reachable_from_origin(&maze));
    assert_eq!("┌───────┬───┐\n│       │   │\n└───────┴───┘", maze.render());

    // the same coins with a pick that selects the cell just visited
    let mut at = 0usize;
    let maze = Maze::sidewinder_with_rand_fn(
        3,
        1,
        || {
            at += 1;
            coins[at - 1]
        },
        || 1_usize,
    )
    .unwrap();
    assert!(is_perfect(&maze));
    assert_eq!("┌───────────┐\n│           │\n└───────────┘", maze.render());
}

#[test]
fn snapshot_mazes_are_perfect() {
    assert!(is_perfect(&Maze::binary_tree_with_rand_fn(3, 3, || true).unwrap()));
    assert!(is_perfect(&Maze::binary_tree_with_rand_fn(3, 3, || false).unwrap()));
    assert!(is_perfect(&Maze::sidewinder_with_rand_fn(3, 3, || true, || 0_usize).unwrap()));
    assert!(is_perfect(&Maze::sidewinder_with_rand_fn(3, 3, || false, || 0_usize).unwrap()));
    assert!(is_perfect(&build_sidewinder_alternating_bool_1usize()));
    assert!(!is_perfect(&Maze::new(3, 3).unwrap()));
    assert!(is_perfect(&Maze::new(1, 1).unwrap()));
}

#[test]
fn movement_follows_open_walls() {
    let mut maze = Maze::new(3, 3).unwrap();
    maze.open_north_wall(MazeCell::new(1, 1)).unwrap();
    maze.open_east_wall(MazeCell::new(0, 1)).unwrap();
    maze.open_north_wall(MazeCell::new(1, 0)).unwrap();
    assert_eq!(
        MovementOptions::new(
            Some(MazeCell::new(1, 2)),
            None,
            Some(MazeCell::new(1, 0)),
            Some(MazeCell::new(0, 1))
        ),
        maze.get_movement_options_for(MazeCell::new(1, 1))
    );
    assert_eq!(
        MovementOptions::new(None, Some(MazeCell::new(1, 1)), None, None),
        maze.get_movement_options_for(MazeCell::new(0, 1))
    );
}

#[test]
fn certain_coins() {
    for denominator in [1u32, 2, 7, u32::MAX] {
        for _ in 0..50 {
            assert!(weighted_coin(denominator, denominator));
            assert!(!weighted_coin(0, denominator));
        }
    }
}

#[test]
fn weighted_coins_follow_their_odds() {
    let often = (0..400).filter(|_| weighted_coin(9, 10)).count();
    let seldom = (0..400).filter(|_| weighted_coin(1, 10)).count();
    assert!(often > seldom);
    let throws: Vec<bool> = (0..200).map(|_| weighted_coin(1, 2)).collect();
    assert!(throws.iter().any(|&coin| coin));
    assert!(throws.iter().any(|&coin| !coin));
}

#[test]
fn default_randomness_varies() {
    let first = Maze::binary_tree(8, 8).unwrap().render();
    let pictures: Vec<String> = (0..20)
        .map(|_| Maze::binary_tree(8, 8).unwrap().render())
        .collect();
    assert!(pictures.iter().any(|picture| *picture != first));
    let first = Maze::sidewinder(8, 8).unwrap().render();
    let pictures: Vec<String> = (0..20)
        .map(|_| Maze::sidewinder(8, 8).unwrap().render())
        .collect();
    assert!(pictures.iter().any(|picture| *picture != first));
}
