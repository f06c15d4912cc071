use std::collections::HashSet;
use tetris::game::{line_clear_score, random_kind, Game};
use tetris::piece::{Color, PieceKind, BOARD_H, BOARD_W};

fn fill_row_except(game: &mut Game, y: usize, gap: usize) {
    for x in 0..BOARD_W {
        if x != gap {
            game.board.grid[y][x] = Some(Color::Blue);
        }
    }
}

#[test]
fn fresh_game_starts_at_level_one() {
    let game = Game::with_pieces(PieceKind::T, PieceKind::I);
    assert_eq!(game.score, 0);
    assert_eq!(game.lines, 0);
    assert_eq!(game.level, 1);
    assert!(!game.game_over);
    assert_eq!(game.next, PieceKind::I);
    assert_eq!(game.current.kind, PieceKind::T);
    assert!(game.board.grid.iter().flatten().all(|c| c.is_none()));
}

#[test]
fn random_game_starts_fresh() {
    let mut game = Game::new();
    assert_eq!((game.score, game.lines, game.level, game.game_over), (0, 0, 1, false));
    game.hard_drop();
    game.reset();
    assert_eq!((game.score, game.lines, game.level, game.game_over), (0, 0, 1, false));
    assert!(game.board.grid.iter().flatten().all(|c| c.is_none()));
}

#[test]
fn random_kinds_cover_every_kind() {
    let mut seen = HashSet::new();
    for _ in 0..2000 {
        seen.insert(format!("{:?}", random_kind()));
    }
    assert_eq!(seen.len(), 7);
}

#[test]
fn moves_stop_at_walls() {
    let mut game = Game::with_pieces(PieceKind::O, PieceKind::O);
    // O occupies columns x+1 and x+2
    let mut steps = 0;
    while game.try_move(-1, 0) {
        steps += 1;
    }
    assert_eq!(steps, 4);
    assert_eq!(game.current.x, -1);
    assert!(!game.try_move(-1, 0));
    assert_eq!(game.current.x, -1);
    assert!(game.try_move(0, 1));
    assert_eq!(game.current.y, 0);
}

#[test]
fn rotation_kicks_away_from_wall() {
    let mut game = Game::with_pieces(PieceKind::I, PieceKind::O);
    assert!(game.try_rotate());
    // vertical bar in column x + 2
    assert_eq!(game.current.cells, vec![(2, 0), (2, 1), (2, 2), (2, 3)]);
    while game.try_move(1, 0) {}
    assert_eq!(game.current.x, 7);
    // back to horizontal: (0,0) leaves the board on the right, (-1,0) fits
    assert!(game.try_rotate());
    assert_eq!(game.current.x, 6);
    assert_eq!(game.current.cells, vec![(3, 2), (2, 2), (1, 2), (0, 2)]);
}

#[test]
fn square_rotation_always_succeeds() {
    let mut game = Game::with_pieces(PieceKind::O, PieceKind::T);
    let before = game.current.clone();
    assert!(game.try_rotate());
    assert_eq!(game.current.cells, before.cells);
    assert_eq!((game.current.x, game.current.y), (before.x, before.y));
}

#[test]
fn blocked_rotation_leaves_piece() {
    let mut game = Game::with_pieces(PieceKind::T, PieceKind::T);
    while game.try_move(0, 1) {}
    // T lands flat on the floor: cells (3..6, 19) and (4, 18)
    assert_eq!(game.current.y, 18);
    for y in 10..BOARD_H - 2 {
        for x in 0..BOARD_W {
            game.board.grid[y][x] = Some(Color::Red);
        }
    }
    for x in [0usize, 1, 2, 6, 7, 8, 9] {
        game.board.grid[18][x] = Some(Color::Red);
        game.board.grid[19][x] = Some(Color::Red);
    }
    game.board.grid[18][3] = Some(Color::Red);
    game.board.grid[18][5] = Some(Color::Red);
    let cells = game.current.cells.clone();
    assert!(!game.try_rotate());
    assert_eq!(game.current.cells, cells);
    assert_eq!((game.current.x, game.current.y), (3, 18));
}

#[test]
fn hard_drop_locks_at_floor_and_spawns_next() {
    let mut game = Game::with_pieces(PieceKind::O, PieceKind::L);
    let ghost = game.ghost_cells();
    assert_eq!(ghost, vec![(4, 18), (5, 18), (4, 19), (5, 19)]);
    game.hard_drop_with(PieceKind::S);
    for (x, y) in ghost {
        assert_eq!(game.board.grid[y as usize][x as usize], Some(Color::Yellow));
    }
    assert_eq!(game.current.kind, PieceKind::L);
    assert_eq!((game.current.x, game.current.y), (3, -1));
    assert_eq!(game.next, PieceKind::S);
    assert_eq!(game.score, 0);
    assert!(!game.game_over);
}

#[test]
fn ghost_does_not_move_piece() {
    let game = Game::with_pieces(PieceKind::J, PieceKind::L);
    let before = (game.current.x, game.current.y);
    let _ = game.ghost_cells();
    assert_eq!((game.current.x, game.current.y), before);
}

#[test]
fn step_down_locks_when_blocked() {
    let mut game = Game::with_pieces(PieceKind::O, PieceKind::T);
    game.step_down_with(PieceKind::Z);
    assert_eq!(game.current.y, 0);
    while game.try_move(0, 1) {}
    game.step_down_with(PieceKind::Z);
    assert_eq!(game.board.grid[19][4], Some(Color::Yellow));
    assert_eq!(game.current.kind, PieceKind::T);
    assert_eq!(game.next, PieceKind::Z);
}

#[test]
fn tetris_at_level_three_scores_2400() {
    let mut game = Game::with_pieces(PieceKind::I, PieceKind::O);
    game.lines = 20;
    game.level = 3;
    game.score = 150;
    for y in BOARD_H - 4..BOARD_H {
        fill_row_except(&mut game, y, 0);
    }
    assert!(game.try_rotate());
    while game.try_move(-1, 0) {}
    assert_eq!(game.current.x, -2);
    game.hard_drop_with(PieceKind::T);
    assert_eq!(game.score, 150 + 2400);
    assert_eq!(game.lines, 24);
    assert_eq!(game.level, 3);
    assert!(game.board.grid.iter().flatten().all(|c| c.is_none()));
}

#[test]
fn line_scores_follow_table() {
    assert_eq!(line_clear_score(4, 3), 2400);
    assert_eq!(line_clear_score(1, 1), 100);
    assert_eq!(line_clear_score(2, 2), 600);
    assert_eq!(line_clear_score(3, 5), 2500);
    assert_eq!(line_clear_score(0, 7), 0);
    assert_eq!(line_clear_score(5, 7), 0);
}

#[test]
fn level_follows_lines_after_clear() {
    let mut game = Game::with_pieces(PieceKind::I, PieceKind::O);
    game.lines = 9;
    game.level = 1;
    fill_row_except(&mut game, BOARD_H - 1, 0);
    assert!(game.try_rotate());
    while game.try_move(-1, 0) {}
    game.hard_drop_with(PieceKind::T);
    assert_eq!(game.lines, 10);
    assert_eq!(game.level, 2);
    assert_eq!(game.score, 100);
    // the rest of the bar stays in column 0
    assert_eq!(game.board.grid[19][0], Some(Color::Cyan));
    assert_eq!(game.board.grid[16][0], None);
}

#[test]
fn no_clear_leaves_score_and_level() {
    let mut game = Game::with_pieces(PieceKind::T, PieceKind::O);
    game.lines = 13;
    game.level = 2;
    game.score = 700;
    game.lock_and_advance_with(PieceKind::S);
    assert_eq!((game.score, game.lines, game.level), (700, 13, 2));
}

#[test]
fn blocked_spawn_ends_game_and_freezes_it() {
    let mut game = Game::with_pieces(PieceKind::O, PieceKind::I);
    while game.try_move(-1, 0) {}
    for y in 0..2 {
        for x in 3..7 {
            game.board.grid[y][x] = Some(Color::Red);
        }
    }
    // lock the O at the left wall: the I then spawns into the filled block
    game.lock_and_advance_with(PieceKind::T);
    assert!(game.game_over);
    let grid = game.board.grid;
    let cells = game.current.cells.clone();
    let pos = (game.current.x, game.current.y);
    assert!(!game.try_move(1, 0));
    assert!(!game.try_move(0, 1));
    assert!(!game.try_rotate());
    // the tick is due, but a finished game does not fall
    assert!(game.tick(5000));
    game.hard_drop_with(PieceKind::L);
    game.step_down_with(PieceKind::L);
    game.lock_and_advance_with(PieceKind::L);
    assert_eq!(game.board.grid, grid);
    assert_eq!(game.current.cells, cells);
    assert_eq!((game.current.x, game.current.y), pos);
    assert_eq!(game.next, PieceKind::T);
    assert!(game.game_over);
}

#[test]
fn square_rotation_succeeds_after_game_over() {
    let mut game = Game::with_pieces(PieceKind::T, PieceKind::O);
    for x in 3..7 {
        game.board.grid[1][x] = Some(Color::Red);
    }
    // the T locks at the top and the O spawns into it
    game.lock_and_advance_with(PieceKind::S);
    assert!(game.game_over);
    assert_eq!(game.current.kind, PieceKind::O);
    let grid = game.board.grid;
    let cells = game.current.cells.clone();
    assert!(game.try_rotate());
    assert_eq!(game.board.grid, grid);
    assert_eq!(game.current.cells, cells);
    assert_eq!((game.current.x, game.current.y), (3, -1));
}

#[test]
fn tick_steps_down_only_when_due() {
    let mut game = Game::with_pieces(PieceKind::T, PieceKind::O);
    assert!(!game.tick(999));
    assert_eq!(game.current.y, -1);
    assert!(game.tick(1000));
    assert_eq!(game.current.y, 0);
    game.lines = 40;
    game.level = 5;
    assert!(!game.tick(679));
    assert!(game.tick(680));
    assert_eq!(game.current.y, 1);
}

#[test]
fn drop_interval_shrinks_with_level() {
    let mut game = Game::with_pieces(PieceKind::T, PieceKind::O);
    assert_eq!(game.drop_interval_ms(), 1000);
    game.lines = 40;
    game.level = 5;
    assert_eq!(game.drop_interval_ms(), 680);
    game.lines = 120;
    game.level = 13;
    assert_eq!(game.drop_interval_ms(), 50);
    game.lines = 1000;
    game.level = 101;
    assert_eq!(game.drop_interval_ms(), 50);
}
