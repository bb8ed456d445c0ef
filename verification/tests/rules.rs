//! Move generation and legality: check detection, the two-pawns rule,
//! the drop-pawn-mate exclusion, and the opening move count.

use shogi_alg::board::{move_piece, Boards, LegalMove, Position};
use shogi_alg::check::{is_checked, is_checkmate};
use shogi_alg::game::generate_legal_moves;
use shogi_alg::movegen::{create_move_range, is_nifu};
use shogi_alg::piece::{Color, Piece, PieceType};

fn empty_boards() -> Boards {
    Boards { main: vec![None; 81], pool: vec![None; 81] }
}

fn put(b: &mut Boards, x: usize, y: usize, pt: PieceType, c: Color) {
    b.main[y * 9 + x] = Some(Piece::new(pt, c));
}

#[test]
fn opening_moves_for_black() {
    let b = shogi_alg::board::create_initial_board();
    let moves = generate_legal_moves(&b, Color::Black);
    // the reference pre-promotion, pre-drop move count of the opening
    assert_eq!(moves.len(), 30);
    // Black's pool is empty, so no drops appear
    assert!(moves.iter().all(|m| m.from.z == 0));
    assert!(moves.iter().all(|m| !m.revolute));
}

#[test]
fn rook_gives_check_along_file() {
    let mut b = empty_boards();
    put(&mut b, 4, 0, PieceType::King, Color::Black);
    put(&mut b, 4, 4, PieceType::Rook, Color::White);
    assert!(is_checked(&b.main, Color::Black));
}

#[test]
fn king_out_of_every_range_is_not_in_check() {
    let mut b = empty_boards();
    // the same attacker, but the king stands outside the rook's ranges
    put(&mut b, 3, 0, PieceType::King, Color::Black);
    put(&mut b, 4, 4, PieceType::Rook, Color::White);
    assert!(!is_checked(&b.main, Color::Black));
}

#[test]
fn blocked_rook_does_not_give_check() {
    let mut b = empty_boards();
    put(&mut b, 4, 0, PieceType::King, Color::Black);
    put(&mut b, 4, 2, PieceType::Pawn, Color::Black);
    put(&mut b, 4, 4, PieceType::Rook, Color::White);
    assert!(!is_checked(&b.main, Color::Black));
}

#[test]
fn pawn_gives_check_one_step_ahead() {
    let mut b = empty_boards();
    put(&mut b, 0, 8, PieceType::King, Color::White);
    put(&mut b, 0, 7, PieceType::Pawn, Color::Black);
    assert!(is_checked(&b.main, Color::White));
}

#[test]
fn nifu_detects_pawn_on_file() {
    let mut b = empty_boards();
    put(&mut b, 3, 2, PieceType::Pawn, Color::Black);
    let m = LegalMove {
        from: Position::new(0, 0, 1),
        to: Position::new(3, 5, 0),
        revolute: false,
    };
    assert!(is_nifu(&b.main, m, Color::Black));
    assert!(!is_nifu(&b.main, m, Color::White));
    let m2 = LegalMove {
        from: Position::new(0, 0, 1),
        to: Position::new(2, 5, 0),
        revolute: false,
    };
    assert!(!is_nifu(&b.main, m2, Color::Black));
    // a promoted pawn on the file does not count
    let mut b2 = empty_boards();
    put(&mut b2, 3, 2, PieceType::PromotedPawn, Color::Black);
    assert!(!is_nifu(&b2.main, m, Color::Black));
}

#[test]
fn no_legal_drop_makes_two_pawns_on_a_file() {
    let mut b = empty_boards();
    put(&mut b, 8, 0, PieceType::King, Color::Black);
    put(&mut b, 8, 8, PieceType::King, Color::White);
    put(&mut b, 3, 2, PieceType::Pawn, Color::Black);
    b.pool[0] = Some(Piece::new(PieceType::Pawn, Color::Black));
    let moves = generate_legal_moves(&b, Color::Black);
    // drops exist, but never onto the file already holding Black's pawn
    assert!(moves.iter().any(|m| m.from.z == 1));
    assert!(moves.iter().all(|m| !(m.from.z == 1 && m.to.x == 3)));
    assert!(moves.iter().any(|m| m.from.z == 1 && m.to.x == 2));
}

/// A position where dropping Black's pool pawn at (0, 7) would
/// checkmate White on the spot, while other pawn drops stay harmless.
fn drop_pawn_mate_position() -> Boards {
    let mut b = empty_boards();
    put(&mut b, 0, 8, PieceType::King, Color::White);
    put(&mut b, 5, 5, PieceType::Pawn, Color::White);
    put(&mut b, 8, 0, PieceType::King, Color::Black);
    put(&mut b, 1, 6, PieceType::Gold, Color::Black);
    put(&mut b, 2, 7, PieceType::Gold, Color::Black);
    b.pool[0] = Some(Piece::new(PieceType::Pawn, Color::Black));
    b
}

#[test]
fn drop_pawn_mate_is_generated_but_not_legal() {
    let b = drop_pawn_mate_position();
    let is_mate_drop = |m: &LegalMove| m.from.z == 1 && m.to.x == 0 && m.to.y == 7;
    // the raw candidate enumeration offers the drop
    let raw = create_move_range(&b, Color::Black);
    assert!(raw.iter().any(|m| is_mate_drop(m)));
    // the drop would indeed be checkmate
    let after = move_piece(&b, raw.iter().find(|m| is_mate_drop(m)).unwrap());
    assert!(is_checkmate(&after, Color::White));
    // yet the legal move set never contains it
    let legal = generate_legal_moves(&b, Color::Black);
    assert!(!legal.iter().any(|m| is_mate_drop(m)));
    // while a harmless pawn drop on the same file stays legal
    assert!(legal.iter().any(|m| m.from.z == 1 && m.to.x == 0 && m.to.y == 5));
}

#[test]
fn self_check_moves_are_filtered() {
    let mut b = empty_boards();
    // Black's gold shields its king from White's rook; moving it aside
    // would expose the king
    put(&mut b, 4, 0, PieceType::King, Color::Black);
    put(&mut b, 4, 2, PieceType::Gold, Color::Black);
    put(&mut b, 4, 8, PieceType::Rook, Color::White);
    put(&mut b, 8, 8, PieceType::King, Color::White);
    let legal = generate_legal_moves(&b, Color::Black);
    // the gold may advance along the file but never step off it
    assert!(legal.iter().any(|m| m.from.x == 4 && m.from.y == 2 && m.to.x == 4));
    assert!(!legal.iter().any(|m| m.from.x == 4 && m.from.y == 2 && m.to.x != 4));
}

#[test]
fn checkmate_by_rook_and_king() {
    let mut b = empty_boards();
    put(&mut b, 0, 8, PieceType::King, Color::White);
    put(&mut b, 0, 6, PieceType::King, Color::Black);
    put(&mut b, 7, 8, PieceType::Rook, Color::Black);
    assert!(is_checkmate(&b, Color::White));
    // without the back-rank rook the king has air
    let mut b2 = empty_boards();
    put(&mut b2, 0, 8, PieceType::King, Color::White);
    put(&mut b2, 0, 6, PieceType::King, Color::Black);
    assert!(!is_checkmate(&b2, Color::White));
}

#[test]
fn knight_jumps_over_pieces() {
    let mut b = empty_boards();
    put(&mut b, 4, 0, PieceType::Knight, Color::Black);
    put(&mut b, 4, 1, PieceType::Pawn, Color::Black);
    let range = Piece::new(PieceType::Knight, Color::Black).create_move_range(
        Position::new(4, 0, 0),
        &b.main,
    );
    let targets: Vec<(i32, i32)> = range.iter().map(|m| (m.to.x, m.to.y)).collect();
    assert!(targets.contains(&(3, 2)));
    assert!(targets.contains(&(5, 2)));
    assert_eq!(range.len(), 2);
}

#[test]
fn lance_slides_until_blocked() {
    let mut b = empty_boards();
    put(&mut b, 0, 0, PieceType::Lance, Color::Black);
    put(&mut b, 0, 4, PieceType::Pawn, Color::White);
    let range = Piece::new(PieceType::Lance, Color::Black).create_move_range(
        Position::new(0, 0, 0),
        &b.main,
    );
    // squares 1..4 plus the capture on 4; no promotion available below
    // the zone, none of the targets reach it
    let plain: Vec<i32> = range.iter().filter(|m| !m.revolute).map(|m| m.to.y).collect();
    assert_eq!(plain, vec![1, 2, 3, 4]);
    assert!(range.iter().all(|m| m.to.x == 0));
}

#[test]
fn rook_promotes_into_the_zone() {
    let mut b = empty_boards();
    put(&mut b, 0, 5, PieceType::Rook, Color::Black);
    let range = Piece::new(PieceType::Rook, Color::Black).create_move_range(
        Position::new(0, 5, 0),
        &b.main,
    );
    // reaching the far ranks offers the promotion to a dragon
    assert!(range.iter().any(|m| m.to.y == 8 && m.revolute));
    assert!(range.iter().any(|m| m.to.y == 8 && !m.revolute));
    // applying the promoting move puts a dragon on the board
    let m = *range.iter().find(|m| m.to.y == 8 && m.revolute).unwrap();
    let r = move_piece(&b, &m);
    assert_eq!(r.main[8 * 9 + 0], Some(Piece::new(PieceType::Dragon, Color::Black)));
}

#[test]
fn dragon_slides_and_steps() {
    let mut b = empty_boards();
    put(&mut b, 4, 4, PieceType::Dragon, Color::Black);
    let range = Piece::new(PieceType::Dragon, Color::Black).create_move_range(
        Position::new(4, 4, 0),
        &b.main,
    );
    let targets: Vec<(i32, i32)> = range.iter().map(|m| (m.to.x, m.to.y)).collect();
    // rook-like slides plus single diagonal steps
    assert!(targets.contains(&(4, 0)));
    assert!(targets.contains(&(0, 4)));
    assert!(targets.contains(&(8, 4)));
    assert!(targets.contains(&(5, 5)));
    assert!(targets.contains(&(3, 3)));
    assert!(!targets.contains(&(6, 6)));
}

#[test]
fn drop_comes_from_first_filled_slot() {
    let mut b = empty_boards();
    put(&mut b, 8, 0, PieceType::King, Color::Black);
    put(&mut b, 8, 8, PieceType::King, Color::White);
    // two pool pawns: the representative is the first slot in Black's
    // fill order
    b.pool[0 * 9 + 0] = Some(Piece::new(PieceType::Pawn, Color::Black));
    b.pool[0 * 9 + 1] = Some(Piece::new(PieceType::Pawn, Color::Black));
    let moves = generate_legal_moves(&b, Color::Black);
    assert!(moves.iter().any(|m| m.from.z == 1));
    for m in moves.iter().filter(|m| m.from.z == 1) {
        assert_eq!((m.from.x, m.from.y), (0, 0));
    }
    // the drop vacates that first slot and leaves the second filled
    let drop = *moves.iter().find(|m| m.from.z == 1).unwrap();
    let r = move_piece(&b, &drop);
    assert_eq!(r.pool[0 * 9 + 0], None);
    assert_eq!(r.pool[0 * 9 + 1], Some(Piece::new(PieceType::Pawn, Color::Black)));
}

#[test]
fn sliding_piece_promotion_variants() {
    let mut b = empty_boards();
    put(&mut b, 0, 5, PieceType::Pawn, Color::Black);
    let range = Piece::new(PieceType::Pawn, Color::Black).create_move_range(
        Position::new(0, 5, 0),
        &b.main,
    );
    // entering the promotion zone yields the plain and the promoting move
    assert_eq!(range.len(), 2);
    assert_eq!((range[0].to.y, range[0].revolute), (6, false));
    assert_eq!((range[1].to.y, range[1].revolute), (6, true));
}
