//! Unit tests for pieces, squares, the opening layout, move application
//! and the captured-piece pool.

use shogi_alg::board::{
    boards_eq, concat_vec, copy_boards, create_initial_board, get_piece_count, move_piece,
    Boards, LegalMove, Position,
};
use shogi_alg::piece::{Color, Piece, PieceType};

fn empty_boards() -> Boards {
    Boards { main: vec![None; 81], pool: vec![None; 81] }
}

fn put(b: &mut Boards, x: usize, y: usize, pt: PieceType, c: Color) {
    b.main[y * 9 + x] = Some(Piece::new(pt, c));
}

fn mv(fx: i32, fy: i32, fz: i32, tx: i32, ty: i32, revolute: bool) -> LegalMove {
    LegalMove {
        from: Position::new(fx, fy, fz),
        to: Position::new(tx, ty, 0),
        revolute,
    }
}

#[test]
fn opponent_flips_sides() {
    assert_eq!(Color::Black.opponent(), Color::White);
    assert_eq!(Color::White.opponent(), Color::Black);
    assert_eq!(Color::Black.opponent().opponent(), Color::Black);
}

#[test]
fn promotion_and_demotion() {
    let p = Piece::new(PieceType::Pawn, Color::Black);
    assert!(p.can_revolte());
    assert_eq!(p.revolute().piece_type, PieceType::PromotedPawn);
    assert_eq!(p.revolute().revolute_back().piece_type, PieceType::Pawn);
    let k = Piece::new(PieceType::King, Color::White);
    assert!(!k.can_revolte());
    assert_eq!(k.revolute(), k);
    let g = Piece::new(PieceType::Gold, Color::Black);
    assert!(!g.can_revolte());
    assert_eq!(g.revolute(), g);
    assert_eq!(g.revolute_back(), g);
}

#[test]
fn rook_and_bishop_promote_and_revert() {
    let r = Piece::new(PieceType::Rook, Color::Black);
    assert!(r.can_revolte());
    assert_eq!(r.revolute().piece_type, PieceType::Dragon);
    assert_eq!(r.revolute().revolute_back(), r);
    let b = Piece::new(PieceType::Bishop, Color::White);
    assert!(b.can_revolte());
    assert_eq!(b.revolute().piece_type, PieceType::Horse);
    assert_eq!(b.revolute().revolute_back(), b);
}

#[test]
fn captured_dragon_reverts_to_rook() {
    let mut b = empty_boards();
    put(&mut b, 3, 3, PieceType::Gold, Color::Black);
    put(&mut b, 3, 4, PieceType::Dragon, Color::White);
    let r = move_piece(&b, &mv(3, 3, 0, 3, 4, false));
    // the dragon reverts to a rook, flips side, and joins Black's rook
    // region; no piece is lost
    assert_eq!(r.pool[4 * 9 + 2], Some(Piece::new(PieceType::Rook, Color::Black)));
    assert_eq!(get_piece_count(&r), 2);
}

#[test]
fn captured_horse_reverts_to_bishop() {
    let mut b = empty_boards();
    put(&mut b, 5, 5, PieceType::Silver, Color::White);
    put(&mut b, 5, 4, PieceType::Horse, Color::Black);
    let r = move_piece(&b, &mv(5, 5, 0, 5, 4, false));
    // White's bishop region fills from its far end
    assert_eq!(r.pool[4 * 9 + 8], Some(Piece::new(PieceType::Bishop, Color::White)));
    assert_eq!(get_piece_count(&r), 2);
}

#[test]
fn piece_codes() {
    assert_eq!(Piece::new(PieceType::King, Color::Black).get_u8(), 1);
    assert_eq!(Piece::new(PieceType::King, Color::White).get_u8(), 254);
    assert_eq!(Piece::new(PieceType::PromotedPawn, Color::Black).get_u8(), 14);
}

#[test]
fn position_validity() {
    assert!(Position::new(0, 0, 0).is_valid());
    assert!(Position::new(8, 8, 0).is_valid());
    assert!(!Position::new(9, 0, 0).is_valid());
    assert!(!Position::new(0, -1, 0).is_valid());
    assert!(!Position::new(4, 4, 1).is_valid());
}

#[test]
fn promotion_zone_test() {
    assert!(mv(0, 5, 0, 0, 6, false).can_revolte(Color::Black));
    assert!(mv(0, 6, 0, 0, 5, false).can_revolte(Color::Black));
    assert!(!mv(0, 4, 0, 0, 5, false).can_revolte(Color::Black));
    assert!(mv(4, 3, 0, 4, 2, false).can_revolte(Color::White));
    assert!(!mv(4, 5, 0, 4, 3, false).can_revolte(Color::White));
    // a drop never promotes
    assert!(!mv(0, 0, 1, 0, 8, false).can_revolte(Color::Black));
}

#[test]
fn initial_board_layout() {
    let b = create_initial_board();
    assert_eq!(b.main[0 * 9 + 4], Some(Piece::new(PieceType::King, Color::Black)));
    assert_eq!(b.main[8 * 9 + 4], Some(Piece::new(PieceType::King, Color::White)));
    assert_eq!(b.main[1 * 9 + 1], Some(Piece::new(PieceType::Rook, Color::Black)));
    assert_eq!(b.main[1 * 9 + 7], Some(Piece::new(PieceType::Bishop, Color::Black)));
    assert_eq!(b.main[7 * 9 + 7], Some(Piece::new(PieceType::Rook, Color::White)));
    assert_eq!(b.main[7 * 9 + 1], Some(Piece::new(PieceType::Bishop, Color::White)));
    for x in 0..9 {
        assert_eq!(b.main[2 * 9 + x], Some(Piece::new(PieceType::Pawn, Color::Black)));
        assert_eq!(b.main[6 * 9 + x], Some(Piece::new(PieceType::Pawn, Color::White)));
    }
    for i in 0..81 {
        assert_eq!(b.pool[i], None);
    }
    assert_eq!(get_piece_count(&b), 40);
}

#[test]
fn apply_move_is_pure() {
    let b = create_initial_board();
    let before = copy_boards(&b);
    let m = mv(0, 2, 0, 0, 3, false);
    let r1 = move_piece(&b, &m);
    let r2 = move_piece(&copy_boards(&b), &m);
    // same move on independent copies gives identical results
    assert!(boards_eq(&r1, &r2));
    // the input position is untouched
    assert!(boards_eq(&b, &before));
    assert!(!boards_eq(&b, &r1));
}

#[test]
fn plain_move_moves_the_piece() {
    let b = create_initial_board();
    let r = move_piece(&b, &mv(0, 2, 0, 0, 3, false));
    assert_eq!(r.main[2 * 9 + 0], None);
    assert_eq!(r.main[3 * 9 + 0], Some(Piece::new(PieceType::Pawn, Color::Black)));
    assert_eq!(get_piece_count(&r), 40);
}

#[test]
fn promoting_move_promotes() {
    let mut b = empty_boards();
    put(&mut b, 2, 5, PieceType::Pawn, Color::Black);
    let r = move_piece(&b, &mv(2, 5, 0, 2, 6, true));
    assert_eq!(
        r.main[6 * 9 + 2],
        Some(Piece::new(PieceType::PromotedPawn, Color::Black))
    );
}

#[test]
fn capture_fills_black_pool_ascending() {
    let mut b = empty_boards();
    put(&mut b, 0, 0, PieceType::Rook, Color::Black);
    put(&mut b, 0, 1, PieceType::Pawn, Color::White);
    let r = move_piece(&b, &mv(0, 0, 0, 0, 1, false));
    assert_eq!(r.main[1 * 9 + 0], Some(Piece::new(PieceType::Rook, Color::Black)));
    assert_eq!(r.main[0], None);
    // the captured white pawn joins Black's pawn region at its first slot
    assert_eq!(r.pool[0 * 9 + 0], Some(Piece::new(PieceType::Pawn, Color::Black)));
}

#[test]
fn capture_fills_white_pool_descending() {
    let mut b = empty_boards();
    put(&mut b, 8, 8, PieceType::Rook, Color::White);
    put(&mut b, 8, 7, PieceType::Pawn, Color::Black);
    let r = move_piece(&b, &mv(8, 8, 0, 8, 7, false));
    // the captured black pawn joins White's pawn region from the far end
    assert_eq!(r.pool[8 * 9 + 8], Some(Piece::new(PieceType::Pawn, Color::White)));
}

#[test]
fn captured_promoted_piece_reverts() {
    let mut b = empty_boards();
    put(&mut b, 3, 3, PieceType::Gold, Color::Black);
    put(&mut b, 3, 4, PieceType::PromotedSilver, Color::White);
    let r = move_piece(&b, &mv(3, 3, 0, 3, 4, false));
    // demoted to silver, flipped to Black, placed in the silver region
    assert_eq!(r.pool[2 * 9 + 4], Some(Piece::new(PieceType::Silver, Color::Black)));
}

#[test]
fn captured_king_vanishes() {
    let mut b = empty_boards();
    put(&mut b, 3, 3, PieceType::Gold, Color::Black);
    put(&mut b, 3, 4, PieceType::King, Color::White);
    let r = move_piece(&b, &mv(3, 3, 0, 3, 4, false));
    assert_eq!(get_piece_count(&r), 1);
    for i in 0..81 {
        assert_eq!(r.pool[i], None);
    }
}

#[test]
fn drop_takes_piece_from_pool() {
    let mut b = empty_boards();
    b.pool[0] = Some(Piece::new(PieceType::Pawn, Color::Black));
    let r = move_piece(&b, &mv(0, 0, 1, 4, 4, false));
    assert_eq!(r.pool[0], None);
    assert_eq!(r.main[4 * 9 + 4], Some(Piece::new(PieceType::Pawn, Color::Black)));
}

#[test]
fn concat_vec_appends() {
    let v = concat_vec(vec![1u8, 2], vec![3u8]);
    assert_eq!(v, vec![1u8, 2, 3]);
    let e: Vec<u8> = concat_vec(Vec::new(), Vec::new());
    assert!(e.is_empty());
}

#[test]
fn boards_eq_detects_differences() {
    let a = create_initial_board();
    let mut b = create_initial_board();
    assert!(boards_eq(&a, &b));
    b.main[4 * 9 + 4] = Some(Piece::new(PieceType::Gold, Color::Black));
    assert!(!boards_eq(&a, &b));
}
