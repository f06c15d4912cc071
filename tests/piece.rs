use std::collections::HashSet;
use tetris::piece::{Color, Piece, PieceKind, SPAWN_X, SPAWN_Y};

#[test]
fn rotates_t_piece_clockwise() {
    let piece = Piece::new(PieceKind::T);
    let rotated = piece.rotated_cw();
    let actual: HashSet<(i32, i32)> = rotated.into_iter().collect();
    let expected: HashSet<(i32, i32)> = [(1, 0), (1, 1), (1, 2), (2, 1)].into_iter().collect();
    assert_eq!(actual, expected);
}

#[test]
fn square_rotation_changes_nothing() {
    let mut piece = Piece::new(PieceKind::O);
    let base = piece.cells.clone();
    for _ in 0..5 {
        piece.cells = piece.rotated_cw();
        assert_eq!(piece.cells, base);
    }
}

#[test]
fn bar_rotates_in_four_wide_frame() {
    let piece = Piece::new(PieceKind::I);
    assert_eq!(piece.rotated_cw(), vec![(2, 0), (2, 1), (2, 2), (2, 3)]);
}

#[test]
fn four_rotations_return_to_base() {
    for kind in [PieceKind::I, PieceKind::T, PieceKind::S, PieceKind::Z, PieceKind::J, PieceKind::L] {
        let mut piece = Piece::new(kind);
        let base = piece.cells.clone();
        for _ in 0..4 {
            piece.cells = piece.rotated_cw();
        }
        assert_eq!(piece.cells, base);
    }
}

#[test]
fn new_piece_spawns_above_centre() {
    let piece = Piece::new(PieceKind::L);
    assert_eq!((piece.x, piece.y), (SPAWN_X, SPAWN_Y));
    assert_eq!((piece.x, piece.y), (3, -1));
    assert_eq!(piece.cells, vec![(2, 0), (0, 1), (1, 1), (2, 1)]);
    assert_eq!(piece.absolute_cells(), vec![(5, -1), (3, 0), (4, 0), (5, 0)]);
}

#[test]
fn kinds_have_fixed_colours_and_shapes() {
    assert_eq!(PieceKind::I.color(), Color::Cyan);
    assert_eq!(PieceKind::O.color(), Color::Yellow);
    assert_eq!(PieceKind::T.color(), Color::Magenta);
    assert_eq!(PieceKind::S.color(), Color::Green);
    assert_eq!(PieceKind::Z.color(), Color::Red);
    assert_eq!(PieceKind::J.color(), Color::Blue);
    assert_eq!(PieceKind::L.color(), Color::DarkYellow);
    assert_eq!(PieceKind::S.cells(), vec![(0, 1), (1, 1), (1, 0), (2, 0)]);
    assert_eq!(PieceKind::from_index(0), PieceKind::I);
    assert_eq!(PieceKind::from_index(6), PieceKind::L);
}
