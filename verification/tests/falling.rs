use tetris::falling::FallingTetromino;
use tetris::grid::Grid;
use tetris::math::Rotation;
use tetris::tetromino::{parse_tetromino, Block, Catalog};

fn quarter_turns(n: usize) -> Rotation {
    let mut r = Rotation::identity();
    for _ in 0..n {
        r = r.rotate_90deg_right();
    }
    r
}

/// The places of the board that the piece covers, row by row.
fn footprint(piece: &FallingTetromino, cols: usize, rows: usize) -> Vec<(usize, usize)> {
    let mut places = Vec::new();
    for j in 0..rows {
        for i in 0..cols {
            if piece.get(i, j).is_some() {
                places.push((i, j));
            }
        }
    }
    places
}

#[test]
fn tetromino_local_global() {
    let catalog = Catalog::standard();
    let tetromino = FallingTetromino {
        col: 123,
        row: 345,
        rotation: Rotation::identity().rotate_90deg_right(),
        tetromino: catalog.shape(0),
    };

    assert_eq!(tetromino.global_to_local(tetromino.local_to_global([0, 0])), [0, 0]);
    assert_eq!(tetromino.local_to_global(tetromino.global_to_local([0, 0])), [0, 0]);
}

#[test]
fn local_and_global_undo_each_other() {
    let catalog = Catalog::standard();
    for k in 0..catalog.len() {
        for turns in 0..4 {
            for (col, row) in [(0, 0), (4, -2), (-3, 17), (123, 345)] {
                let piece = FallingTetromino {
                    tetromino: catalog.shape(k),
                    col,
                    row,
                    rotation: quarter_turns(turns),
                };
                for i in -6..7 {
                    for j in -6..7 {
                        assert_eq!(piece.global_to_local(piece.local_to_global([i, j])), [i, j]);
                        assert_eq!(piece.local_to_global(piece.global_to_local([i, j])), [i, j]);
                    }
                }
            }
        }
    }
}

#[test]
fn local_to_global_exact_values() {
    let catalog = Catalog::standard();
    // the I shape is four wide and four tall, so its center is (2, 2)
    let mut piece = FallingTetromino {
        tetromino: catalog.shape(0),
        col: 10,
        row: 20,
        rotation: Rotation::identity(),
    };
    assert_eq!(piece.local_to_global([0, 0]), [10, 20]);
    assert_eq!(piece.local_to_global([1, 3]), [11, 23]);
    assert_eq!(piece.global_to_local([11, 23]), [1, 3]);

    piece.rotation = quarter_turns(1);
    // (1, 3) is (-1, 1) from the center; turned back it is (1, 1)
    assert_eq!(piece.local_to_global([1, 3]), [13, 23]);
    assert_eq!(piece.local_to_global([1, 0]), [10, 23]);
    assert_eq!(piece.global_to_local([13, 23]), [1, 3]);

    piece.rotation = quarter_turns(2);
    assert_eq!(piece.local_to_global([1, 3]), [13, 21]);

    piece.rotation = quarter_turns(3);
    assert_eq!(piece.local_to_global([1, 3]), [11, 21]);
}

#[test]
fn odd_sized_shape_turns_about_its_middle_cell() {
    let shape = parse_tetromino(&["#  ", "   ", "   "]);
    let mut piece =
        FallingTetromino { tetromino: &shape, col: 0, row: 0, rotation: Rotation::identity() };
    assert_eq!(footprint(&piece, 3, 3), vec![(0, 0)]);
    piece.rotation = quarter_turns(1);
    assert_eq!(footprint(&piece, 3, 3), vec![(0, 2)]);
    piece.rotation = quarter_turns(2);
    assert_eq!(footprint(&piece, 3, 3), vec![(2, 2)]);
    piece.rotation = quarter_turns(3);
    assert_eq!(footprint(&piece, 3, 3), vec![(2, 0)]);
}

#[test]
fn get_tells_where_the_piece_has_blocks() {
    let catalog = Catalog::standard();
    let piece = FallingTetromino {
        tetromino: catalog.shape(1),
        col: 4,
        row: 1,
        rotation: Rotation::identity(),
    };
    assert_eq!(footprint(&piece, 10, 20), vec![(4, 1), (5, 1), (4, 2), (5, 2)]);
    assert_eq!(piece.get(4, 1), Some(&Block));
    assert!(piece.get(3, 1).is_none());
    assert!(piece.get(6, 2).is_none());
    assert!(piece.get(4, 3).is_none());
}

#[test]
fn try_move_shifts_the_anchor() {
    let catalog = Catalog::standard();
    let board = Grid::new([10, 20]);
    let mut piece = FallingTetromino {
        tetromino: catalog.shape(1),
        col: 4,
        row: 1,
        rotation: Rotation::identity(),
    };
    assert!(piece.try_move(1, 0, &board));
    assert_eq!((piece.col, piece.row), (5, 1));
    assert!(piece.try_move(-2, 3, &board));
    assert_eq!((piece.col, piece.row), (3, 4));
    assert!(piece.try_move(0, 0, &board));
    assert_eq!((piece.col, piece.row), (3, 4));
    assert_eq!(piece.rotation, Rotation::identity());
    assert!(std::ptr::eq(piece.tetromino, catalog.shape(1)));
}

#[test]
fn try_move_stops_at_the_walls() {
    let catalog = Catalog::standard();
    let board = Grid::new([10, 20]);
    let mut piece = FallingTetromino {
        tetromino: catalog.shape(1),
        col: 0,
        row: 5,
        rotation: Rotation::identity(),
    };
    assert!(!piece.try_move(-1, 0, &board));
    assert_eq!((piece.col, piece.row), (0, 5));
    assert!(piece.try_move(8, 0, &board));
    assert_eq!((piece.col, piece.row), (8, 5));
    assert!(!piece.try_move(1, 0, &board));
    assert_eq!((piece.col, piece.row), (8, 5));
}

#[test]
fn try_move_stops_at_the_floor() {
    let catalog = Catalog::standard();
    let board = Grid::new([10, 20]);
    let mut piece = FallingTetromino {
        tetromino: catalog.shape(1),
        col: 4,
        row: 17,
        rotation: Rotation::identity(),
    };
    // the lower blocks go from row 18 to the last row, 19
    assert!(piece.try_move(0, 1, &board));
    assert_eq!((piece.col, piece.row), (4, 18));
    assert!(!piece.try_move(0, 1, &board));
    assert_eq!((piece.col, piece.row), (4, 18));
}

#[test]
fn try_move_stops_at_settled_blocks() {
    let catalog = Catalog::standard();
    let mut board = Grid::new([10, 20]);
    board.set(5, 10, Some(Block));
    let mut piece = FallingTetromino {
        tetromino: catalog.shape(1),
        col: 4,
        row: 7,
        rotation: Rotation::identity(),
    };
    assert!(piece.try_move(0, 1, &board));
    assert!(!piece.try_move(0, 1, &board));
    assert_eq!((piece.col, piece.row), (4, 8));
    // a move that is free downwards and barred sideways changes neither
    // coordinate
    board.set(6, 10, Some(Block));
    assert!(!piece.try_move(1, 1, &board));
    assert_eq!((piece.col, piece.row), (4, 8));
    assert!(piece.try_move(1, 0, &board));
    assert_eq!((piece.col, piece.row), (5, 8));
}

#[test]
fn try_move_has_no_bound_upwards() {
    let catalog = Catalog::standard();
    let board = Grid::new([10, 20]);
    let mut piece = FallingTetromino {
        tetromino: catalog.shape(1),
        col: 4,
        row: 0,
        rotation: Rotation::identity(),
    };
    assert!(piece.try_move(0, -50, &board));
    assert_eq!((piece.col, piece.row), (4, -50));
    // above the board the walls still hold
    assert!(!piece.try_move(-5, 0, &board));
    assert_eq!((piece.col, piece.row), (4, -50));
}

#[test]
fn try_move_ignores_empty_cells_of_the_shape() {
    let catalog = Catalog::standard();
    let board = Grid::new([10, 20]);
    // the I shape has its blocks in its second column only
    let mut piece = FallingTetromino {
        tetromino: catalog.shape(0),
        col: 0,
        row: 0,
        rotation: Rotation::identity(),
    };
    assert!(piece.try_move(-1, 0, &board));
    assert_eq!(piece.col, -1);
    assert!(!piece.try_move(-1, 0, &board));
    assert!(piece.try_move(9, 0, &board));
    assert_eq!(piece.col, 8);
    assert!(!piece.try_move(1, 0, &board));
}

#[test]
fn rotate_in_the_open_needs_no_kick() {
    let catalog = Catalog::standard();
    let board = Grid::new([10, 20]);
    let mut piece = FallingTetromino {
        tetromino: catalog.shape(0),
        col: 3,
        row: 5,
        rotation: Rotation::identity(),
    };
    assert_eq!(footprint(&piece, 10, 20), vec![(4, 5), (4, 6), (4, 7), (4, 8)]);
    piece.rotate(&board);
    assert_eq!(piece.rotation, Rotation([[0, -1], [1, 0]]));
    assert_eq!((piece.col, piece.row), (3, 5));
    assert_eq!(footprint(&piece, 10, 20), vec![(3, 8), (4, 8), (5, 8), (6, 8)]);
}

#[test]
fn rotate_against_the_left_wall_shifts_by_the_least_amount() {
    let catalog = Catalog::standard();
    let board = Grid::new([10, 20]);
    let mut piece = FallingTetromino {
        tetromino: catalog.shape(0),
        col: -1,
        row: 5,
        rotation: Rotation::identity(),
    };
    assert_eq!(footprint(&piece, 10, 20), vec![(0, 5), (0, 6), (0, 7), (0, 8)]);
    piece.rotate(&board);
    assert_eq!(piece.rotation, Rotation([[0, -1], [1, 0]]));
    assert_eq!((piece.col, piece.row), (0, 5));
    assert_eq!(footprint(&piece, 10, 20), vec![(0, 8), (1, 8), (2, 8), (3, 8)]);
}

#[test]
fn rotate_against_the_right_wall_shifts_by_the_least_amount() {
    let catalog = Catalog::standard();
    let board = Grid::new([10, 20]);
    let mut piece = FallingTetromino {
        tetromino: catalog.shape(0),
        col: 8,
        row: 5,
        rotation: Rotation::identity(),
    };
    assert_eq!(footprint(&piece, 10, 20), vec![(9, 5), (9, 6), (9, 7), (9, 8)]);
    piece.rotate(&board);
    assert_eq!(piece.rotation, Rotation([[0, -1], [1, 0]]));
    // turned, the blocks would lie in columns 8 to 11
    assert_eq!((piece.col, piece.row), (6, 5));
    assert_eq!(footprint(&piece, 10, 20), vec![(6, 8), (7, 8), (8, 8), (9, 8)]);
}

#[test]
fn rotate_tries_the_kicks_in_order() {
    let catalog = Catalog::standard();
    let mut board = Grid::new([10, 20]);
    board.set(3, 8, Some(Block));
    board.set(5, 8, Some(Block));
    board.set(8, 8, Some(Block));
    let mut piece = FallingTetromino {
        tetromino: catalog.shape(0),
        col: 4,
        row: 4,
        rotation: Rotation::identity(),
    };
    // turned, the blocks would lie in row 7, which is free
    piece.rotate(&board);
    assert_eq!((piece.col, piece.row), (4, 4));
    assert_eq!(footprint(&piece, 10, 20), vec![(4, 7), (5, 7), (6, 7), (7, 7)]);

    let mut lower = FallingTetromino {
        tetromino: catalog.shape(0),
        col: 4,
        row: 5,
        rotation: Rotation::identity(),
    };
    // in row 8 the piece fits neither in place nor one to the left or right;
    // the first kick that fits is one to the left and one up
    lower.rotate(&board);
    assert_eq!(lower.rotation, Rotation([[0, -1], [1, 0]]));
    assert_eq!((lower.col, lower.row), (3, 4));
    assert_eq!(footprint(&lower, 10, 20), vec![(3, 7), (4, 7), (5, 7), (6, 7)]);
}

#[test]
fn rotate_prefers_left_over_right() {
    let catalog = Catalog::standard();
    let mut board = Grid::new([10, 20]);
    board.set(5, 8, Some(Block));
    let mut piece = FallingTetromino {
        tetromino: catalog.shape(0),
        col: 5,
        row: 5,
        rotation: Rotation::identity(),
    };
    // turned in place the blocks lie in columns 5 to 8 of row 8; both one
    // to the left (4 to 7) and one to the right (6 to 9) the piece meets
    // the block or not: left meets it, right does not
    piece.rotate(&board);
    assert_eq!((piece.col, piece.row), (6, 5));

    let mut free = Grid::new([10, 20]);
    free.set(6, 8, Some(Block));
    free.set(9, 8, Some(Block));
    let mut other = FallingTetromino {
        tetromino: catalog.shape(0),
        col: 6,
        row: 5,
        rotation: Rotation::identity(),
    };
    // in place: columns 6 to 9, barred; left: 5 to 8, barred; right: 7 to
    // 10, outside; left and up: free
    other.rotate(&free);
    assert_eq!((other.col, other.row), (5, 4));
}

#[test]
fn rotate_that_fits_nowhere_changes_nothing() {
    let catalog = Catalog::standard();
    let mut board = Grid::new([10, 20]);
    for j in [7, 8] {
        for i in 0..10 {
            if i != 5 {
                board.set(i, j, Some(Block));
            }
        }
    }
    let mut piece = FallingTetromino {
        tetromino: catalog.shape(0),
        col: 4,
        row: 5,
        rotation: Rotation::identity(),
    };
    piece.rotate(&board);
    assert_eq!(piece.rotation, Rotation::identity());
    assert_eq!((piece.col, piece.row), (4, 5));
    assert!(std::ptr::eq(piece.tetromino, catalog.shape(0)));
}

#[test]
fn rotate_on_a_board_as_wide_as_the_piece_is_long() {
    let catalog = Catalog::standard();
    let board = Grid::new([4, 20]);
    let mut piece = FallingTetromino {
        tetromino: catalog.shape(0),
        col: -1,
        row: 5,
        rotation: Rotation::identity(),
    };
    piece.rotate(&board);
    assert_eq!(piece.rotation, Rotation([[0, -1], [1, 0]]));
    assert_eq!((piece.col, piece.row), (0, 5));
    assert_eq!(footprint(&piece, 4, 20), vec![(0, 8), (1, 8), (2, 8), (3, 8)]);

    let mut right = FallingTetromino {
        tetromino: catalog.shape(0),
        col: 2,
        row: 5,
        rotation: Rotation::identity(),
    };
    right.rotate(&board);
    assert_eq!((right.col, right.row), (0, 5));
}

#[test]
fn rotate_on_a_board_narrower_than_the_piece_is_rejected() {
    let catalog = Catalog::standard();
    for cols in [2, 3] {
        let board = Grid::new([cols, 20]);
        for col in -1..(cols as isize - 1) {
            let mut piece = FallingTetromino {
                tetromino: catalog.shape(0),
                col,
                row: 5,
                rotation: Rotation::identity(),
            };
            piece.rotate(&board);
            assert_eq!(piece.rotation, Rotation::identity());
            assert_eq!((piece.col, piece.row), (col, 5));
        }
    }
}

#[test]
fn four_rotations_in_the_open_come_back() {
    let catalog = Catalog::standard();
    let board = Grid::new([10, 20]);
    for k in 0..catalog.len() {
        let mut piece = FallingTetromino {
            tetromino: catalog.shape(k),
            col: 4,
            row: 6,
            rotation: Rotation::identity(),
        };
        let start = footprint(&piece, 10, 20);
        for _ in 0..4 {
            piece.rotate(&board);
        }
        assert_eq!(piece.rotation, Rotation::identity());
        assert_eq!((piece.col, piece.row), (4, 6));
        assert_eq!(footprint(&piece, 10, 20), start);
    }
}
