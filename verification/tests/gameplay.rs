//! The state machine and the feature encoding: mate-in-one
//! short-circuiting, repetition avoidance, game flow from the opening,
//! and the collision-free indicator encoding.

use shogi_alg::board::{boards_eq, create_initial_board, move_piece, Boards, LegalMove, Position};
use shogi_alg::check::is_checkmate;
use shogi_alg::encode::{board_bytes, get_num_array, record_bytes};
use shogi_alg::game::{Game, GameState};
use shogi_alg::piece::{Color, Piece, PieceType};

fn empty_boards() -> Boards {
    Boards { main: vec![None; 81], pool: vec![None; 81] }
}

fn put(b: &mut Boards, x: usize, y: usize, pt: PieceType, c: Color) {
    b.main[y * 9 + x] = Some(Piece::new(pt, c));
}

#[test]
fn new_game_starts_at_the_opening() {
    let g = Game::new();
    assert_eq!(g.current_turn(), Color::Black);
    assert!(boards_eq(g.boards(), &create_initial_board()));
    assert_eq!(g.record().len(), 0);
}

#[test]
fn next_plays_a_turn_from_the_opening() {
    let mut g = Game::new();
    assert!(g.position_sound());
    let cands = g.candidates();
    assert_eq!(cands.len(), 30);
    let r = g.next(3);
    assert!(matches!(r, GameState::Playing));
    assert_eq!(g.current_turn(), Color::White);
    assert_eq!(g.record().len(), 1);
    assert!(boards_eq(g.boards(), &cands[3]));
    assert!(boards_eq(&g.record()[0], &cands[3]));
}

#[test]
fn get_legal_moves_pairs_pieces_with_moves() {
    let g = Game::new();
    let moves = g.get_legal_moves().unwrap();
    assert_eq!(moves.len(), 30);
    for (p, m) in moves.iter() {
        assert_eq!(m.from.z, 0);
        let src = g.boards().main[(m.from.y as usize) * 9 + (m.from.x as usize)];
        assert_eq!(src, Some(*p));
        assert_eq!(p.color, Color::Black);
    }
}

#[test]
fn play_next_applies_and_flips() {
    let mut g = Game::new();
    let moves = g.get_legal_moves().unwrap();
    let (_, m) = moves[0];
    let expected = move_piece(g.boards(), &m);
    g.play_next(&m);
    assert!(boards_eq(g.boards(), &expected));
    assert_eq!(g.current_turn(), Color::White);
    assert_eq!(g.record().len(), 1);
}

/// Two kings and a single Black rook set to mate in one: the rook lifts
/// to the back rank while the Black king seals the escape squares.
fn mate_in_one_position() -> Boards {
    let mut b = empty_boards();
    put(&mut b, 0, 8, PieceType::King, Color::White);
    put(&mut b, 0, 6, PieceType::King, Color::Black);
    put(&mut b, 7, 0, PieceType::Rook, Color::Black);
    b
}

#[test]
fn mate_in_one_overrides_the_evaluator_choice() {
    let b = mate_in_one_position();
    let mut g = Game::from_position(&b, Color::Black);
    assert!(g.position_sound());
    let cands = g.candidates();
    // the position offers both mating and quiet continuations
    let quiet = (0..cands.len())
        .find(|&i| !is_checkmate(&cands[i], Color::White))
        .unwrap();
    let first_mate = cands
        .iter()
        .find(|c| is_checkmate(c, Color::White))
        .unwrap();
    assert!(!boards_eq(&cands[quiet], first_mate));
    // ask for the quiet candidate, as an evaluator might
    let r = g.next(quiet);
    // the short-circuit adopted the first mate instead
    assert!(matches!(r, GameState::Checkmate(Color::Black)));
    assert!(boards_eq(g.boards(), first_mate));
    assert!(!boards_eq(g.boards(), &cands[quiet]));
    assert!(is_checkmate(g.boards(), Color::White));
    assert_eq!(g.record().len(), 1);
}

#[test]
fn stuck_side_is_mated() {
    // White to move with no reply: the same back-rank mate, seen from
    // the loser's side
    let mut b = empty_boards();
    put(&mut b, 0, 8, PieceType::King, Color::White);
    put(&mut b, 0, 6, PieceType::King, Color::Black);
    put(&mut b, 7, 8, PieceType::Rook, Color::Black);
    let mut g = Game::from_position(&b, Color::White);
    assert!(g.position_sound());
    let r = g.next(0);
    assert!(matches!(r, GameState::Checkmate(Color::Black)));
    // the position is left as it was
    assert!(boards_eq(g.boards(), &b));
}

/// Kings apart, one gold per side free to shuffle.
fn shuffle_position() -> Boards {
    let mut b = empty_boards();
    put(&mut b, 4, 0, PieceType::King, Color::Black);
    put(&mut b, 4, 8, PieceType::King, Color::White);
    put(&mut b, 0, 0, PieceType::Gold, Color::Black);
    put(&mut b, 8, 8, PieceType::Gold, Color::White);
    b
}

fn board_move(fx: i32, fy: i32, tx: i32, ty: i32) -> LegalMove {
    LegalMove {
        from: Position::new(fx, fy, 0),
        to: Position::new(tx, ty, 0),
        revolute: false,
    }
}

#[test]
fn repeated_position_is_excluded_from_candidates() {
    let b = shuffle_position();
    let mut g = Game::from_position(&b, Color::Black);
    // shuffle both golds out and back: the position returns to one
    // already in the history
    g.play_next(&board_move(0, 0, 0, 1));
    let first = move_piece(&b, &board_move(0, 0, 0, 1));
    assert!(boards_eq(g.boards(), &first));
    g.play_next(&board_move(8, 8, 8, 7));
    g.play_next(&board_move(0, 1, 0, 0));
    g.play_next(&board_move(8, 7, 8, 8));
    // back to the start, Black to move, four positions recorded
    assert!(boards_eq(g.boards(), &b));
    assert_eq!(g.record().len(), 4);
    assert_eq!(g.current_turn(), Color::Black);
    // repeating the first gold move would recreate a recorded position,
    // so no candidate equals any recorded position
    assert!(g.position_sound());
    let cands = g.candidates();
    assert!(cands.len() > 0);
    for c in cands.iter() {
        for r in g.record().iter() {
            assert!(!boards_eq(c, r));
        }
    }
    // in particular the board after the repeat move is absent
    for c in cands.iter() {
        assert!(!boards_eq(c, &first));
    }
}

#[test]
fn get_legal_moves_reports_checkmate() {
    // the mated side has no legal reply, so the opponent is named winner
    let mut b = empty_boards();
    put(&mut b, 0, 8, PieceType::King, Color::White);
    put(&mut b, 0, 6, PieceType::King, Color::Black);
    put(&mut b, 7, 8, PieceType::Rook, Color::Black);
    let g = Game::from_position(&b, Color::White);
    assert!(g.position_sound());
    let r = g.get_legal_moves();
    assert!(matches!(r, Err(GameState::Checkmate(Color::Black))));
}

#[test]
fn repetition_starvation_checkmates_the_mover() {
    // Black's king is boxed in: White's lance sweeps file 1 and a gold
    // guards (0, 2), so the king only shuttles between (0, 0) and
    // (0, 1) while White's far gold shuttles in step
    let mut b = empty_boards();
    put(&mut b, 0, 1, PieceType::King, Color::Black);
    put(&mut b, 1, 8, PieceType::Lance, Color::White);
    put(&mut b, 0, 3, PieceType::Gold, Color::White);
    put(&mut b, 8, 8, PieceType::King, Color::White);
    put(&mut b, 8, 6, PieceType::Gold, Color::White);
    let mut g = Game::from_position(&b, Color::Black);
    g.play_next(&board_move(0, 1, 0, 0));
    g.play_next(&board_move(8, 6, 8, 7));
    g.play_next(&board_move(0, 0, 0, 1));
    g.play_next(&board_move(8, 7, 8, 6));
    // the cycle closed: the position equals the start again
    assert!(boards_eq(g.boards(), &b));
    assert!(g.position_sound());
    // Black's one legal move recreates a recorded position, so the
    // candidate set is starved and Black is declared checkmated
    let moves = shogi_alg::game::generate_legal_moves(g.boards(), Color::Black);
    assert_eq!(moves.len(), 1);
    assert_eq!(g.candidates().len(), 0);
    let r = g.next(0);
    assert!(matches!(r, GameState::Checkmate(Color::White)));
}

#[test]
fn corrupt_pool_is_unsound() {
    // a White pawn sitting in Black's pool region violates the pool
    // invariant, as does a king in the pool
    let mut b = shuffle_position();
    b.pool[0] = Some(Piece::new(PieceType::Pawn, Color::White));
    let g = Game::from_position(&b, Color::Black);
    assert!(!g.position_sound());
    let mut b2 = shuffle_position();
    b2.pool[4 * 9 + 4] = Some(Piece::new(PieceType::King, Color::White));
    let g2 = Game::from_position(&b2, Color::Black);
    assert!(!g2.position_sound());
    // while a pawn in its own region is sound
    let mut b3 = shuffle_position();
    b3.pool[0] = Some(Piece::new(PieceType::Pawn, Color::Black));
    let g3 = Game::from_position(&b3, Color::Black);
    assert!(g3.position_sound());
}

#[test]
fn encoding_is_deterministic() {
    let b = create_initial_board();
    let e1 = get_num_array(&b);
    let e2 = get_num_array(&create_initial_board());
    assert_eq!(e1, e2);
}

#[test]
fn encoding_shape_and_channels() {
    let b = create_initial_board();
    let e = get_num_array(&b);
    assert_eq!(e.len(), 9);
    for plane in e.iter() {
        assert_eq!(plane.len(), 9);
        for chans in plane.iter() {
            assert_eq!(chans.len(), 56);
        }
    }
    // Black king at (4, 0): kind 1, Black, board tier, channel 0
    assert_eq!(e[4][0][0], 1);
    // White king at (4, 8): channel 14
    assert_eq!(e[4][8][14], 1);
    // Black pawn at (0, 2): channel 7
    assert_eq!(e[0][2][7], 1);
    // an empty square encodes all zeros
    assert!(e[4][4].iter().all(|&v| v == 0));
    // a pool pawn sits on the pool tier's channels
    let mut b2 = empty_boards();
    b2.pool[0] = Some(Piece::new(PieceType::Pawn, Color::Black));
    let e2 = get_num_array(&b2);
    assert_eq!(e2[0][0][7 + 28], 1);
}

#[test]
fn boards_differing_in_a_square_encode_differently() {
    let b1 = create_initial_board();
    let b2 = move_piece(&b1, &board_move(0, 2, 0, 3));
    assert_eq!(get_num_array(&b1), get_num_array(&b1));
    assert_ne!(get_num_array(&b1), get_num_array(&b2));
    // a capture that changes only the pool also changes the encoding
    let mut b3 = create_initial_board();
    b3.pool[0] = Some(Piece::new(PieceType::Pawn, Color::Black));
    assert_ne!(get_num_array(&b1), get_num_array(&b3));
}

#[test]
fn record_bytes_flattens_history() {
    let b = create_initial_board();
    let one = board_bytes(&b);
    assert_eq!(one.len(), 9 * 9 * 56);
    assert!(one.iter().all(|&v| v == 0 || v == 1));
    // the flat layout is column major with channels innermost
    let e = get_num_array(&b);
    assert_eq!(one[4 * 9 * 56 + 0 * 56 + 0], e[4][0][0]);
    let mut g = Game::new();
    g.next(0);
    g.next(0);
    let rec = record_bytes(g.record());
    assert_eq!(rec.len(), 2 * 9 * 9 * 56);
    assert_eq!(&rec[0..one.len()], &board_bytes(&g.record()[0])[..]);
}
