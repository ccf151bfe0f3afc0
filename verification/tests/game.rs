use tetris::falling::FallingTetromino;
use tetris::game::{merge, Game, GameEvent, Paint, Tile};
use tetris::grid::Grid;
use tetris::math::Rotation;
use tetris::tetromino::{parse_tetromino, Block, Catalog};

fn picture(grid: &Grid) -> Vec<String> {
    let mut rows = Vec::new();
    for j in 0..grid.rows() {
        let mut row = String::new();
        for i in 0..grid.cols() {
            row.push(if grid.get(i as isize, j as isize).is_some() { '#' } else { ' ' });
        }
        rows.push(row);
    }
    rows
}

fn anchor(game: &Game) -> (isize, isize) {
    let piece = game.falling().unwrap();
    (piece.col, piece.row)
}

/// Ticks until the falling piece has settled, and says how many ticks it
/// took. No piece enters.
fn drop_piece(game: &mut Game) -> usize {
    let mut ticks = 0;
    loop {
        ticks += 1;
        if game.step(GameEvent::Tick) {
            return ticks;
        }
        assert!(ticks < 1000);
    }
}

#[test]
fn new_game_is_empty() {
    let catalog = Catalog::standard();
    let game = Game::new([10, 20], &catalog);
    assert!(!game.is_over());
    assert!(game.falling().is_none());
    assert_eq!(game.board().cols(), 10);
    assert_eq!(game.board().rows(), 20);
    assert_eq!(picture(game.board()), vec!["          "; 20]);
    assert!(game.render().is_empty());
}

#[test]
fn square_enters_in_the_middle_above_the_board() {
    let catalog = Catalog::standard();
    let mut game = Game::new([10, 20], &catalog);
    game.spawn(1);
    assert_eq!(anchor(&game), (4, -2));
    assert!(!game.is_over());
    let piece = game.falling().unwrap();
    assert_eq!(piece.rotation, Rotation::identity());
    assert!(std::ptr::eq(piece.tetromino, catalog.shape(1)));

    for _ in 0..3 {
        game.handle_event(GameEvent::Tick);
    }
    assert_eq!(anchor(&game), (4, 1));
    assert!(!game.is_over());
    assert_eq!(picture(game.board()), vec!["          "; 20]);
}

#[test]
fn each_shape_enters_centered() {
    let catalog = Catalog::standard();
    let want = [(3, -4), (4, -2), (4, -3), (4, -3), (4, -3), (4, -3), (4, -3)];
    for k in 0..catalog.len() {
        let mut game = Game::new([10, 20], &catalog);
        game.spawn(k);
        assert_eq!(anchor(&game), want[k]);
    }
    let mut odd = Game::new([7, 5], &catalog);
    odd.spawn(0);
    assert_eq!(anchor(&odd), (1, -4));
}

#[test]
fn first_tick_lets_a_piece_enter() {
    let catalog = Catalog::standard();
    let mut game = Game::new([10, 20], &catalog);
    game.handle_event(GameEvent::MoveLeft);
    game.handle_event(GameEvent::Rotate);
    assert!(game.falling().is_none());
    game.handle_event(GameEvent::Tick);
    let piece = game.falling().unwrap();
    assert!((0..catalog.len()).any(|k| std::ptr::eq(piece.tetromino, catalog.shape(k))));
    assert_eq!(piece.row, -(piece.tetromino.rows() as isize));
    assert_eq!(piece.col, 5 - (piece.tetromino.cols() / 2) as isize);
    assert_eq!(piece.rotation, Rotation::identity());
    assert!(!game.is_over());
}

#[test]
fn spawn_tetromino_picks_from_the_catalog() {
    let catalog = Catalog::standard();
    let mut game = Game::new([10, 20], &catalog);
    let mut seen = [false; 7];
    for _ in 0..400 {
        game.spawn_tetromino();
        let piece = game.falling().unwrap();
        let k = (0..catalog.len())
            .find(|&k| std::ptr::eq(piece.tetromino, catalog.shape(k)))
            .unwrap();
        seen[k] = true;
        assert_eq!(piece.row, -(catalog.shape(k).rows() as isize));
    }
    assert!(seen.iter().filter(|&&s| s).count() > 1);
}

#[test]
fn step_says_when_a_piece_is_due() {
    let catalog = Catalog::standard();
    let mut game = Game::new([10, 20], &catalog);
    assert!(!game.step(GameEvent::MoveLeft));
    assert!(!game.step(GameEvent::MoveRight));
    assert!(!game.step(GameEvent::Rotate));
    assert!(game.step(GameEvent::Tick));
    assert!(game.falling().is_none());
    game.spawn(1);
    assert!(!game.step(GameEvent::Tick));
    assert_eq!(anchor(&game), (4, -1));
}

#[test]
fn moves_to_the_sides() {
    let catalog = Catalog::standard();
    let mut game = Game::new([10, 20], &catalog);
    game.spawn(1);
    game.handle_event(GameEvent::MoveLeft);
    assert_eq!(anchor(&game), (3, -2));
    game.handle_event(GameEvent::MoveRight);
    game.handle_event(GameEvent::MoveRight);
    assert_eq!(anchor(&game), (5, -2));
    for _ in 0..10 {
        game.handle_event(GameEvent::MoveRight);
    }
    assert_eq!(anchor(&game), (8, -2));
    for _ in 0..20 {
        game.handle_event(GameEvent::MoveLeft);
    }
    assert_eq!(anchor(&game), (0, -2));
}

#[test]
fn rotate_event_turns_the_piece() {
    let catalog = Catalog::standard();
    let mut game = Game::new([10, 20], &catalog);
    game.spawn(0);
    for _ in 0..6 {
        game.handle_event(GameEvent::Tick);
    }
    assert_eq!(anchor(&game), (3, 2));
    game.handle_event(GameEvent::Rotate);
    let piece = game.falling().unwrap();
    assert_eq!(piece.rotation, Rotation([[0, -1], [1, 0]]));
    assert_eq!((piece.col, piece.row), (3, 2));
    assert!(piece.get(3, 5).is_some() && piece.get(6, 5).is_some());
}

#[test]
fn piece_settles_on_the_floor() {
    let catalog = Catalog::standard();
    let mut game = Game::new([6, 4], &catalog);
    game.spawn(1);
    assert_eq!(anchor(&game), (2, -2));
    // four ticks bring the square to rows 2 and 3; the fifth settles it
    assert_eq!(drop_piece(&mut game), 5);
    assert!(game.falling().is_none());
    assert_eq!(picture(game.board()), vec!["      ", "      ", "  ##  ", "  ##  "]);
    assert!(!game.is_over());
}

#[test]
fn full_rows_leave_when_a_piece_settles() {
    let catalog = Catalog::standard();
    let mut game = Game::new([4, 4], &catalog);
    game.spawn(1);
    game.handle_event(GameEvent::MoveLeft);
    assert_eq!(anchor(&game), (0, -2));
    drop_piece(&mut game);
    assert_eq!(picture(game.board()), vec!["    ", "    ", "##  ", "##  "]);

    game.spawn(1);
    game.handle_event(GameEvent::MoveRight);
    assert_eq!(anchor(&game), (2, -2));
    drop_piece(&mut game);
    assert_eq!(picture(game.board()), vec!["    ", "    ", "    ", "    "]);
    assert!(!game.is_over());
}

#[test]
fn rows_above_a_full_row_move_down() {
    let catalog = Catalog::standard();
    let mut game = Game::new([4, 6], &catalog);
    // an upright I in column 0
    game.spawn(0);
    assert_eq!(anchor(&game), (0, -4));
    game.handle_event(GameEvent::MoveLeft);
    assert_eq!(anchor(&game), (-1, -4));
    drop_piece(&mut game);
    assert_eq!(
        picture(game.board()),
        vec!["    ", "    ", "#   ", "#   ", "#   ", "#   "]
    );
    // a square next to it
    game.spawn(1);
    drop_piece(&mut game);
    assert_eq!(
        picture(game.board()),
        vec!["    ", "    ", "#   ", "#   ", "### ", "### "]
    );
    // an upright I in column 3 fills the two lowest rows
    game.spawn(0);
    game.handle_event(GameEvent::MoveRight);
    game.handle_event(GameEvent::MoveRight);
    assert_eq!(anchor(&game), (2, -4));
    drop_piece(&mut game);
    assert_eq!(
        picture(game.board()),
        vec!["    ", "    ", "    ", "    ", "#  #", "#  #"]
    );
}

#[test]
fn game_is_over_when_a_piece_cannot_enter() {
    let catalog = Catalog::standard();
    let mut game = Game::new([4, 2], &catalog);
    game.spawn(1);
    drop_piece(&mut game);
    assert_eq!(picture(game.board()), vec![" ## ", " ## "]);
    assert!(!game.is_over());
    game.spawn(1);
    assert!(game.is_over());
    // the piece is there all the same
    assert_eq!(anchor(&game), (1, -2));
}

#[test]
fn nothing_changes_once_the_game_is_over() {
    let catalog = Catalog::standard();
    let mut game = Game::new([4, 2], &catalog);
    game.spawn(1);
    drop_piece(&mut game);
    game.spawn(1);
    assert!(game.is_over());
    let board = picture(game.board());
    let tiles = game.render();
    for event in [
        GameEvent::Tick,
        GameEvent::MoveLeft,
        GameEvent::MoveRight,
        GameEvent::Rotate,
        GameEvent::Tick,
    ] {
        game.handle_event(event);
        assert!(game.is_over());
        assert_eq!(anchor(&game), (1, -2));
        assert_eq!(game.falling().unwrap().rotation, Rotation::identity());
        assert_eq!(picture(game.board()), board);
        assert_eq!(game.render(), tiles);
        assert!(!game.step(event));
    }
}

#[test]
fn board_without_rows_ends_the_game_at_once() {
    let catalog = Catalog::standard();
    let mut game = Game::new([10, 0], &catalog);
    game.handle_event(GameEvent::Tick);
    assert!(game.is_over());
    assert!(game.falling().is_some());
}

#[test]
fn board_narrower_than_the_piece_ends_the_game_at_once() {
    let catalog = Catalog::standard();
    let mut game = Game::new([1, 10], &catalog);
    game.spawn(1);
    assert_eq!(anchor(&game), (-1, -2));
    assert!(game.is_over());
    let mut none = Game::new([0, 10], &catalog);
    none.handle_event(GameEvent::Tick);
    assert!(none.is_over());
}

#[test]
fn render_lists_tiles_in_scan_order() {
    let catalog = Catalog::standard();
    let mut game = Game::new([4, 4], &catalog);
    game.spawn(1);
    game.handle_event(GameEvent::MoveLeft);
    drop_piece(&mut game);
    game.spawn(1);
    game.handle_event(GameEvent::MoveRight);
    for _ in 0..3 {
        game.handle_event(GameEvent::Tick);
    }
    assert_eq!(anchor(&game), (2, 1));
    assert_eq!(
        game.render(),
        vec![
            Tile { col: 2, row: 1, paint: Paint::Falling },
            Tile { col: 3, row: 1, paint: Paint::Falling },
            Tile { col: 0, row: 2, paint: Paint::Settled },
            Tile { col: 1, row: 2, paint: Paint::Settled },
            Tile { col: 2, row: 2, paint: Paint::Falling },
            Tile { col: 3, row: 2, paint: Paint::Falling },
            Tile { col: 0, row: 3, paint: Paint::Settled },
            Tile { col: 1, row: 3, paint: Paint::Settled },
        ]
    );
}

#[test]
fn render_paints_settled_blocks_as_lost_once_over() {
    let catalog = Catalog::standard();
    let mut game = Game::new([4, 2], &catalog);
    game.spawn(1);
    drop_piece(&mut game);
    game.spawn(1);
    assert!(game.is_over());
    assert_eq!(
        game.render(),
        vec![
            Tile { col: 1, row: 0, paint: Paint::Lost },
            Tile { col: 2, row: 0, paint: Paint::Lost },
            Tile { col: 1, row: 1, paint: Paint::Lost },
            Tile { col: 2, row: 1, paint: Paint::Lost },
        ]
    );
}

#[test]
fn merge_puts_the_blocks_on_the_board() {
    let shape = parse_tetromino(&["## ", " ##"]);
    let mut board = Grid::new([5, 4]);
    board.set(0, 3, Some(Block));
    let piece =
        FallingTetromino { tetromino: &shape, col: 1, row: 2, rotation: Rotation::identity() };
    merge(&mut board, &piece);
    assert_eq!(picture(&board), vec!["     ", "     ", " ##  ", "# ## "]);
}

#[test]
fn merge_drops_blocks_outside_the_board() {
    let shape = parse_tetromino(&["##", "##"]);
    let mut board = Grid::new([3, 3]);
    let piece =
        FallingTetromino { tetromino: &shape, col: 1, row: -1, rotation: Rotation::identity() };
    merge(&mut board, &piece);
    assert_eq!(picture(&board), vec![" ##", "   ", "   "]);
}

#[test]
fn merge_of_a_turned_piece() {
    let catalog = Catalog::standard();
    let mut board = Grid::new([6, 6]);
    let piece = FallingTetromino {
        tetromino: catalog.shape(0),
        col: 1,
        row: 1,
        rotation: Rotation::identity().rotate_90deg_right(),
    };
    merge(&mut board, &piece);
    assert_eq!(
        picture(&board),
        vec!["      ", "      ", "      ", "      ", " #### ", "      "]
    );
}

#[test]
fn piece_never_lies_on_a_settled_block() {
    let catalog = Catalog::standard();
    let mut game = Game::new([6, 8], &catalog);
    let events = [
        GameEvent::Tick,
        GameEvent::MoveLeft,
        GameEvent::Rotate,
        GameEvent::Tick,
        GameEvent::MoveRight,
        GameEvent::MoveRight,
        GameEvent::Rotate,
        GameEvent::Tick,
        GameEvent::MoveLeft,
        GameEvent::Tick,
        GameEvent::Tick,
    ];
    let mut landed = false;
    for round in 0..3000 {
        let before: usize =
            picture(game.board()).iter().map(|row| row.matches('#').count()).sum();
        game.handle_event(events[(round * 7 + round / 5) % events.len()]);
        if let Some(piece) = game.falling() {
            for j in 0..8 {
                for i in 0..6 {
                    assert!(
                        !(piece.get(i, j).is_some()
                            && game.board().get(i as isize, j as isize).is_some())
                    );
                }
            }
        }
        let now: usize =
            picture(game.board()).iter().map(|row| row.matches('#').count()).sum();
        if now != before {
            // a piece of four blocks has settled, less what lay above the
            // board, and full rows of six have left
            landed = true;
            assert!(now <= before + 4);
        }
        assert!(!picture(game.board()).iter().any(|row| row == "######"));
        if game.is_over() {
            break;
        }
    }
    assert!(landed);
}
