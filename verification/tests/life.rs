use life::LifeGame;

fn board(cells: &[(i32, i32)], min_x: i32, min_y: i32, max_x: i32, max_y: i32) -> LifeGame {
    LifeGame::from_cells(&cells.to_vec(), min_x, min_y, max_x, max_y).unwrap()
}

/// The live cells of `game` in the window `low..=high` by `low..=high`.
fn cells_in(game: &LifeGame, low: i32, high: i32) -> Vec<(i32, i32)> {
    let mut cells = Vec::new();
    for x in low..=high {
        for y in low..=high {
            if game.is_alive(x, y) {
                cells.push((x, y));
            }
        }
    }
    cells
}

/// The next generation of `cells`, computed cell by cell over a window wide
/// enough to hold it.
fn plain_step(cells: &[(i32, i32)], low: i32, high: i32) -> Vec<(i32, i32)> {
    let mut next = Vec::new();
    for x in low..=high {
        for y in low..=high {
            let mut around = 0;
            for dx in -1..=1 {
                for dy in -1..=1 {
                    if (dx, dy) != (0, 0) && cells.contains(&(x + dx, y + dy)) {
                        around += 1;
                    }
                }
            }
            let lives = if cells.contains(&(x, y)) {
                around == 2 || around == 3
            } else {
                around == 3
            };
            if lives {
                next.push((x, y));
            }
        }
    }
    next
}

#[test]
fn empty_is_noop() {
    let mut game = LifeGame::new(Vec::new());
    let game_clone = game.clone();
    game.step();
    assert_eq!(game, game_clone);
}

#[test]
fn block() {
    let vec = vec![vec![true, true], vec![true, true]];
    let mut game = LifeGame::new(vec);
    let game_clone = game.clone();
    game.step();
    assert_eq!(game, game_clone);
}

#[test]
fn blinker() {
    let vec = vec![vec![true, true, true]];
    let mut game = LifeGame::new(vec);
    let game_clone = game.clone();
    game.step();
    assert_eq!(game, board(&[(-1, 1), (0, 1), (1, 1)], -1, 1, 1, 1));
    game.step();
    assert_eq!(game, board(&[(0, 0), (0, 1), (0, 2)], 0, 0, 0, 2));
    assert_eq!(game, game_clone);
}

#[test]
fn glider() {
    let vec = vec![
        vec![false, true, false],
        vec![false, false, true],
        vec![true, true, true],
    ];

    let mut game = LifeGame::new(vec);
    assert_eq!(
        game,
        board(&[(0, 1), (1, 2), (2, 0), (2, 1), (2, 2)], 0, 0, 2, 2)
    );

    game.step();
    assert_eq!(
        game,
        board(&[(1, 0), (1, 2), (2, 1), (2, 2), (3, 1)], 1, 0, 3, 2)
    );

    game.step();
    assert_eq!(
        game,
        board(&[(1, 2), (2, 0), (2, 2), (3, 1), (3, 2)], 1, 0, 3, 2)
    );

    game.step();
    assert_eq!(
        game,
        board(&[(1, 1), (2, 2), (2, 3), (3, 1), (3, 2)], 1, 1, 3, 3)
    );

    game.step();
    assert_eq!(
        game,
        board(&[(1, 2), (2, 3), (3, 1), (3, 2), (3, 3)], 1, 1, 3, 3)
    );
}

#[test]
fn empty_board_has_zero_box() {
    let game = LifeGame::new(Vec::new());
    assert_eq!(
        (game.min_x(), game.min_y(), game.max_x(), game.max_y()),
        (0, 0, 0, 0)
    );
    assert_eq!(cells_in(&game, -3, 3), vec![]);
}

#[test]
fn empty_board_with_a_wide_box_steps_to_zero_box() {
    let mut game = board(&[], 3, 4, 7, 9);
    game.step();
    assert_eq!(game, board(&[], 0, 0, 0, 0));
    assert_eq!(game, LifeGame::new(Vec::new()));
}

#[test]
fn all_dead_grid_is_the_empty_board() {
    let game = LifeGame::new(vec![vec![false; 4]; 3]);
    assert_eq!(game, LifeGame::new(Vec::new()));
}

#[test]
fn new_anchors_the_box_at_the_origin() {
    let mut grid = vec![vec![false; 5]; 4];
    grid[2][3] = true;
    let game = LifeGame::new(grid);
    assert_eq!(game, board(&[(2, 3)], 0, 0, 2, 3));
    assert_ne!(game, board(&[(2, 3)], 2, 3, 2, 3));
}

#[test]
fn new_takes_the_greatest_row_and_column_apart() {
    let grid = vec![
        vec![false, false, false, true],
        vec![false],
        vec![true, false],
    ];
    let game = LifeGame::new(grid);
    assert_eq!(game, board(&[(0, 3), (2, 0)], 0, 0, 2, 3));
}

#[test]
fn new_reads_ragged_rows() {
    let grid = vec![vec![true], vec![], vec![false, true, true], vec![true, true]];
    let game = LifeGame::new(grid);
    assert_eq!(
        cells_in(&game, -1, 4),
        vec![(0, 0), (2, 1), (2, 2), (3, 0), (3, 1)]
    );
    assert_eq!(
        (game.min_x(), game.min_y(), game.max_x(), game.max_y()),
        (0, 0, 3, 2)
    );
}

#[test]
fn try_new_makes_the_same_board_as_new() {
    let grid = vec![vec![false, true], vec![true, true]];
    assert_eq!(LifeGame::try_new(grid.clone()), Some(LifeGame::new(grid)));
    assert_eq!(LifeGame::try_new(Vec::new()), Some(LifeGame::new(Vec::new())));
}

#[test]
fn first_step_tightens_the_box() {
    let mut grid = vec![vec![false; 6]; 6];
    grid[3][3] = true;
    grid[3][4] = true;
    grid[4][3] = true;
    grid[4][4] = true;
    let mut game = LifeGame::new(grid);
    assert_eq!(
        (game.min_x(), game.min_y(), game.max_x(), game.max_y()),
        (0, 0, 4, 4)
    );
    game.step();
    assert_eq!(game, board(&[(3, 3), (3, 4), (4, 3), (4, 4)], 3, 3, 4, 4));
}

#[test]
fn lone_cell_dies() {
    let mut game = board(&[(5, -7)], 5, -7, 5, -7);
    game.step();
    assert_eq!(game, board(&[], 0, 0, 0, 0));
}

#[test]
fn two_cells_die() {
    let mut game = LifeGame::new(vec![vec![true, true]]);
    game.step();
    assert_eq!(game, LifeGame::new(Vec::new()));
}

#[test]
fn three_in_a_corner_become_a_block() {
    let mut game = LifeGame::new(vec![vec![true, true], vec![true, false]]);
    game.step();
    assert_eq!(game, board(&[(0, 0), (0, 1), (1, 0), (1, 1)], 0, 0, 1, 1));
}

#[test]
fn crowded_cell_dies() {
    // The centre of a plus has four live neighbours.
    let mut game = board(&[(0, -1), (-1, 0), (0, 0), (1, 0), (0, 1)], -1, -1, 1, 1);
    game.step();
    assert!(!game.is_alive(0, 0));
    assert_eq!(
        cells_in(&game, -3, 3),
        vec![
            (-1, -1),
            (-1, 0),
            (-1, 1),
            (0, -1),
            (0, 1),
            (1, -1),
            (1, 0),
            (1, 1)
        ]
    );
}

#[test]
fn step_reads_only_the_generation_before() {
    // Scanned in order, (0, 1) is born before (1, 1) is judged; counting it
    // would give (1, 1) four neighbours and kill it.
    let mut game = board(&[(0, 0), (1, 1), (0, 2), (2, 1)], 0, 0, 2, 2);
    game.step();
    assert_eq!(game, board(&[(0, 1), (1, 0), (1, 1), (1, 2)], 0, 0, 1, 2));
}

#[test]
fn block_is_stable_away_from_the_origin() {
    let cells = [(-10, 20), (-10, 21), (-9, 20), (-9, 21)];
    let mut game = board(&cells, -10, 20, -9, 21);
    let before = game.clone();
    for _ in 0..5 {
        game.step();
        assert_eq!(game, before);
    }
}

#[test]
fn blinker_has_period_two() {
    let mut game = board(&[(-4, -1), (-4, 0), (-4, 1)], -4, -1, -4, 1);
    let even = game.clone();
    game.step();
    let odd = game.clone();
    assert_eq!(odd, board(&[(-5, 0), (-4, 0), (-3, 0)], -5, 0, -3, 0));
    for _ in 0..4 {
        game.step();
        assert_eq!(game, even);
        game.step();
        assert_eq!(game, odd);
    }
}

#[test]
fn glider_moves_by_one_diagonally_every_four_steps() {
    let mut game = board(&[(0, 1), (1, 2), (2, 0), (2, 1), (2, 2)], 0, 0, 2, 2);
    for round in 1..=10 {
        for _ in 0..4 {
            game.step();
        }
        let moved: Vec<(i32, i32)> = [(0, 1), (1, 2), (2, 0), (2, 1), (2, 2)]
            .iter()
            .map(|&(x, y)| (x + round, y + round))
            .collect();
        assert_eq!(game, board(&moved, round, round, round + 2, round + 2));
    }
}

#[test]
fn glider_crosses_into_negative_coordinates() {
    // The mirror image of the glider travels towards negative x and y.
    let mut game = board(&[(0, -1), (-1, -2), (-2, 0), (-2, -1), (-2, -2)], -2, -2, 0, 0);
    for _ in 0..8 {
        game.step();
    }
    assert_eq!(
        game,
        board(&[(-2, -3), (-3, -4), (-4, -2), (-4, -3), (-4, -4)], -4, -4, -2, -2)
    );
}

#[test]
fn count_live_neighbors_around_a_block() {
    let game = LifeGame::new(vec![vec![true, true], vec![true, true]]);
    assert_eq!(game.count_live_neighbors(0, 0), 3);
    assert_eq!(game.count_live_neighbors(1, 1), 3);
    assert_eq!(game.count_live_neighbors(-1, -1), 1);
    assert_eq!(game.count_live_neighbors(-1, 0), 2);
    assert_eq!(game.count_live_neighbors(0, 2), 2);
    assert_eq!(game.count_live_neighbors(2, 2), 1);
    assert_eq!(game.count_live_neighbors(3, 3), 0);
    assert_eq!(game.count_live_neighbors(-2, 0), 0);
}

#[test]
fn count_live_neighbors_leaves_the_centre_out() {
    let ring = [
        (-1, -1),
        (-1, 0),
        (-1, 1),
        (0, -1),
        (0, 1),
        (1, -1),
        (1, 0),
        (1, 1),
    ];
    let game = board(&ring, -1, -1, 1, 1);
    assert_eq!(game.count_live_neighbors(0, 0), 8);
    let mut filled = ring.to_vec();
    filled.push((0, 0));
    let game = board(&filled, -1, -1, 1, 1);
    assert_eq!(game.count_live_neighbors(0, 0), 8);
    assert_eq!(game.count_live_neighbors(-1, -1), 3);
    assert_eq!(game.count_live_neighbors(0, 1), 5);
}

#[test]
fn count_live_neighbors_tells_each_neighbor_apart() {
    for dx in -1..=1 {
        for dy in -1..=1 {
            let game = board(&[(-7 + dx, 9 + dy)], -8, 8, -6, 10);
            let expected = if (dx, dy) == (0, 0) { 0 } else { 1 };
            assert_eq!(game.count_live_neighbors(-7, 9), expected);
        }
    }
}

#[test]
fn count_live_neighbors_ignores_cells_two_away() {
    let game = board(&[(0, 2), (2, 0), (-2, 0), (0, -2), (2, 2), (-2, -2)], -2, -2, 2, 2);
    assert_eq!(game.count_live_neighbors(0, 0), 0);
}

#[test]
fn count_live_neighbors_at_the_ends_of_the_grid() {
    let corners = [
        (i32::MAX, i32::MAX),
        (i32::MIN, i32::MIN),
        (i32::MAX, i32::MIN),
        (i32::MIN, i32::MAX),
    ];
    let game = board(&corners, i32::MIN, i32::MIN, i32::MAX, i32::MAX);
    assert_eq!(game.count_live_neighbors(i32::MAX, i32::MAX), 0);
    assert_eq!(game.count_live_neighbors(i32::MIN, i32::MIN), 0);
    assert_eq!(game.count_live_neighbors(i32::MAX - 1, i32::MAX - 1), 1);
    assert_eq!(game.count_live_neighbors(i32::MIN + 1, i32::MIN + 1), 1);
    assert_eq!(game.count_live_neighbors(i32::MAX, i32::MIN + 1), 1);
    assert_eq!(game.count_live_neighbors(i32::MIN, i32::MAX - 1), 1);
    assert_eq!(game.count_live_neighbors(0, 0), 0);
}

#[test]
fn is_alive_tells_x_from_y() {
    let game = board(&[(1, -2)], -5, -5, 5, 5);
    assert!(game.is_alive(1, -2));
    assert!(!game.is_alive(-2, 1));
    assert!(!game.is_alive(-1, 2));
    assert!(!game.is_alive(1, 2));
    assert!(!game.is_alive(0, 0));
}

#[test]
fn is_alive_at_the_ends_of_the_grid() {
    let game = board(
        &[(i32::MIN, i32::MAX), (i32::MAX, 0), (0, i32::MIN), (-1, -1)],
        i32::MIN,
        i32::MIN,
        i32::MAX,
        i32::MAX,
    );
    assert!(game.is_alive(i32::MIN, i32::MAX));
    assert!(game.is_alive(i32::MAX, 0));
    assert!(game.is_alive(0, i32::MIN));
    assert!(game.is_alive(-1, -1));
    assert!(!game.is_alive(i32::MAX, i32::MIN));
    assert!(!game.is_alive(i32::MIN, i32::MIN));
    assert!(!game.is_alive(0, i32::MAX));
    assert!(!game.is_alive(i32::MIN, 0));
    assert!(!game.is_alive(0, 0));
    assert!(!game.is_alive(0, -1));
    assert!(!game.is_alive(-1, 0));
}

#[test]
fn from_cells_refuses_a_cell_outside_the_box() {
    let cells = vec![(0, 0), (3, 1)];
    assert!(LifeGame::from_cells(&cells, 0, 0, 3, 1).is_some());
    assert_eq!(LifeGame::from_cells(&cells, 0, 0, 2, 1), None);
    assert_eq!(LifeGame::from_cells(&cells, 0, 0, 3, 0), None);
    assert_eq!(LifeGame::from_cells(&cells, 1, 0, 3, 1), None);
    assert_eq!(LifeGame::from_cells(&cells, 0, 1, 3, 1), None);
}

#[test]
fn from_cells_takes_any_box_for_no_cells() {
    let game = LifeGame::from_cells(&Vec::new(), 4, 4, -4, -4).unwrap();
    assert_eq!(
        (game.min_x(), game.min_y(), game.max_x(), game.max_y()),
        (4, 4, -4, -4)
    );
    assert!(LifeGame::from_cells(&vec![(0, 0)], 4, 4, -4, -4).is_none());
}

#[test]
fn from_cells_ignores_order_and_repeats() {
    let a = board(&[(1, 2), (-3, 4), (0, 0)], -3, 0, 1, 4);
    let b = board(&[(0, 0), (1, 2), (0, 0), (-3, 4), (1, 2)], -3, 0, 1, 4);
    assert_eq!(a, b);
}

#[test]
fn getters_give_the_box() {
    let game = board(&[(2, 3)], -1, -2, 5, 7);
    assert_eq!(game.min_x(), -1);
    assert_eq!(game.min_y(), -2);
    assert_eq!(game.max_x(), 5);
    assert_eq!(game.max_y(), 7);
}

#[test]
fn equality_takes_the_box_into_account() {
    let cells = [(1, 1), (1, 2)];
    let tight = board(&cells, 1, 1, 1, 2);
    assert_eq!(tight, board(&cells, 1, 1, 1, 2));
    assert_ne!(tight, board(&cells, 0, 1, 1, 2));
    assert_ne!(tight, board(&cells, 1, 0, 1, 2));
    assert_ne!(tight, board(&cells, 1, 1, 2, 2));
    assert_ne!(tight, board(&cells, 1, 1, 1, 3));
}

#[test]
fn equality_takes_the_cells_into_account() {
    let a = board(&[(0, 0), (1, 1)], 0, 0, 1, 1);
    assert_ne!(a, board(&[(0, 0), (1, 0)], 0, 0, 1, 1));
    assert_ne!(a, board(&[(0, 0)], 0, 0, 1, 1));
    assert_ne!(a, board(&[(0, 0), (1, 1), (0, 1)], 0, 0, 1, 1));
    assert_ne!(a, board(&[(1, 1), (1, 0)], 0, 0, 1, 1));
    assert_eq!(a, board(&[(1, 1), (0, 0)], 0, 0, 1, 1));
}

#[test]
fn clone_is_equal_and_apart() {
    let mut game = LifeGame::new(vec![vec![true, true, true]]);
    let copy = game.clone();
    assert_eq!(game, copy);
    game.step();
    assert_ne!(game, copy);
    assert_eq!(copy, LifeGame::new(vec![vec![true, true, true]]));
}

#[test]
fn has_margin_tells_when_the_box_touches_the_ends() {
    assert!(LifeGame::new(Vec::new()).has_margin());
    assert!(board(&[], i32::MIN + 1, i32::MIN + 1, i32::MAX - 1, i32::MAX - 1).has_margin());
    assert!(!board(&[], i32::MIN, 0, 0, 0).has_margin());
    assert!(!board(&[], 0, i32::MIN, 0, 0).has_margin());
    assert!(!board(&[], 0, 0, i32::MAX, 0).has_margin());
    assert!(!board(&[], 0, 0, 0, i32::MAX).has_margin());
}

#[test]
fn step_next_to_the_ends_of_the_grid() {
    // A blinker whose box leaves one cell of margin on every side.
    let x = i32::MAX - 1;
    let y = i32::MIN + 2;
    let mut game = board(&[(x, y - 1), (x, y), (x, y + 1)], x, y - 1, x, y + 1);
    assert!(game.has_margin());
    game.step();
    assert_eq!(game, board(&[(x - 1, y), (x, y), (x + 1, y)], x - 1, y, x + 1, y));
    assert!(!game.has_margin());
}

#[test]
fn step_at_the_ends_of_the_grid() {
    // A blinker that lies along x and touches the greatest x: it turns
    // within the grid, though its box has no margin.
    let x = i32::MAX;
    let mut game = board(&[(x - 2, 0), (x - 1, 0), (x, 0)], x - 2, 0, x, 0);
    assert!(!game.has_margin());
    game.step();
    assert_eq!(
        game,
        board(&[(x - 1, -1), (x - 1, 0), (x - 1, 1)], x - 1, -1, x - 1, 1)
    );
    assert!(game.has_margin());
    game.step();
    assert_eq!(game, board(&[(x - 2, 0), (x - 1, 0), (x, 0)], x - 2, 0, x, 0));
}

#[test]
fn step_in_the_corners_of_the_grid() {
    let corners = [
        (i32::MIN, i32::MIN),
        (i32::MIN, i32::MAX),
        (i32::MAX, i32::MIN),
        (i32::MAX, i32::MAX),
    ];
    for &(x, y) in &corners {
        let mut lone = board(&[(x, y)], x, y, x, y);
        lone.step();
        assert_eq!(lone, board(&[], 0, 0, 0, 0));

        // A block in the corner stays.
        let inner_x = if x == i32::MIN { x + 1 } else { x - 1 };
        let inner_y = if y == i32::MIN { y + 1 } else { y - 1 };
        let cells = [(x, y), (x, inner_y), (inner_x, y), (inner_x, inner_y)];
        let mut block = board(
            &cells,
            x.min(inner_x),
            y.min(inner_y),
            x.max(inner_x),
            y.max(inner_y),
        );
        let before = block.clone();
        block.step();
        assert_eq!(block, before);
    }
}

#[test]
fn box_is_tight_after_every_step() {
    // The R-pentomino grows for a long time.
    let mut game = board(&[(0, 1), (0, 2), (1, 0), (1, 1), (2, 1)], 0, 0, 2, 2);
    for _ in 0..40 {
        game.step();
        let cells = cells_in(&game, -60, 60);
        assert!(!cells.is_empty());
        assert_eq!(game.min_x(), cells.iter().map(|c| c.0).min().unwrap());
        assert_eq!(game.max_x(), cells.iter().map(|c| c.0).max().unwrap());
        assert_eq!(game.min_y(), cells.iter().map(|c| c.1).min().unwrap());
        assert_eq!(game.max_y(), cells.iter().map(|c| c.1).max().unwrap());
    }
}

#[test]
fn step_agrees_with_the_rule_cell_by_cell() {
    // A fixed scramble of a 12 by 12 square.
    let mut seed: u32 = 12345;
    let mut cells = Vec::new();
    for x in 0..12 {
        for y in 0..12 {
            seed = seed.wrapping_mul(1103515245).wrapping_add(12345);
            if (seed >> 16) % 3 == 0 {
                cells.push((x - 6, y - 6));
            }
        }
    }
    let mut game = board(&cells, -6, -6, 5, 5);
    for _ in 0..12 {
        let expected = plain_step(&cells, -40, 40);
        game.step();
        assert_eq!(cells_in(&game, -40, 40), expected);
        for &(x, y) in &expected {
            assert!(game.min_x() <= x && x <= game.max_x());
            assert!(game.min_y() <= y && y <= game.max_y());
        }
        cells = expected;
    }
}

#[test]
fn count_live_neighbors_agrees_with_is_alive() {
    let game = board(
        &[(0, 1), (0, 2), (1, 0), (1, 1), (2, 1), (-3, -3), (-2, -3)],
        -3,
        -3,
        2,
        2,
    );
    for x in -5..=5 {
        for y in -5..=5 {
            let mut expected = 0;
            for dx in -1..=1 {
                for dy in -1..=1 {
                    if (dx, dy) != (0, 0) && game.is_alive(x + dx, y + dy) {
                        expected += 1;
                    }
                }
            }
            assert_eq!(game.count_live_neighbors(x, y), expected);
        }
    }
}
