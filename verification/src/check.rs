//! Check and checkmate detection: locating a king, deciding whether any
//! opposing piece's move range reaches it, and deciding whether a side
//! has any candidate reply that escapes check.

use vstd::prelude::*;

use crate::board::{
    on_board, sq_idx, spec_move_piece, square_at, wf_board, wf_boards, Board, Boards, BoardsV,
    LegalMove, Position,
};
use crate::movegen::{
    create_move_range, lemma_gen_props, spec_create_move_range, spec_gen_props, spec_move_range,
};
use crate::piece::{spec_opponent, Color, Piece, PieceType};

verus! {

/// The first square at or after flat index `i` holding `c`'s king, as
/// `(column, row)`.
pub open spec fn spec_find_king_from(b: Seq<Option<Piece>>, c: Color, i: int) -> Option<
    (int, int),
>
    decreases 81 - i,
{
    if i < 0 || i >= 81 {
        None
    } else if b[i] == Some(Piece { piece_type: PieceType::King, color: c }) {
        Some((i % 9, i / 9))
    } else {
        spec_find_king_from(b, c, i + 1)
    }
}

/// The square of `c`'s king, scanning rows upward.
pub open spec fn spec_find_king(b: Seq<Option<Piece>>, c: Color) -> Option<(int, int)> {
    spec_find_king_from(b, c, 0)
}

/// Whether `c`'s king stands somewhere on the grid.
pub open spec fn spec_has_king(b: Seq<Option<Piece>>, c: Color) -> bool {
    exists|i: int|
        0 <= i < 81 && #[trigger] b[i] == Some(Piece { piece_type: PieceType::King, color: c })
}

proof fn lemma_find_king_from(b: Seq<Option<Piece>>, c: Color, i: int)
    requires
        0 <= i,
    ensures
        (spec_find_king_from(b, c, i) is Some) <==> exists|j: int|
            i <= j < 81 && #[trigger] b[j] == Some(
                Piece { piece_type: PieceType::King, color: c },
            ),
        spec_find_king_from(b, c, i) matches Some(k) ==> on_board(k.0, k.1) && b[sq_idx(
            k.0,
            k.1,
        )] == Some(Piece { piece_type: PieceType::King, color: c }),
    decreases 81 - i,
{
    if i >= 81 {
    } else if b[i] == Some(Piece { piece_type: PieceType::King, color: c }) {
        assert(sq_idx(i % 9, i / 9) == i);
    } else {
        lemma_find_king_from(b, c, i + 1);
    }
}

/// A king is found exactly when one is present, and what is found is a
/// king square.
pub proof fn lemma_has_king_find(b: Seq<Option<Piece>>, c: Color)
    ensures
        spec_has_king(b, c) <==> spec_find_king(b, c) is Some,
        spec_find_king(b, c) matches Some(k) ==> on_board(k.0, k.1) && square_at(b, k.0, k.1)
            == Some(Piece { piece_type: PieceType::King, color: c }),
{
    lemma_find_king_from(b, c, 0);
}

/// Whether piece `q` standing at `pos` covers square `(kx, ky)` with its
/// move range.
pub open spec fn spec_threatens(
    b: Seq<Option<Piece>>,
    q: Piece,
    pos: Position,
    kx: int,
    ky: int,
) -> bool {
    let r = spec_move_range(b, q, pos);
    exists|i: int| 0 <= i < r.len() && (#[trigger] r[i]).to.x == kx && r[i].to.y == ky
}

/// Whether side `c`'s king square is covered by the move range of some
/// opposing piece.
pub open spec fn spec_in_check(b: Seq<Option<Piece>>, c: Color) -> bool {
    match spec_find_king(b, c) {
        None => false,
        Some(k) => exists|x: int, y: int|
            {
                &&& on_board(x, y)
                &&& #[trigger] square_at(b, x, y) is Some
                &&& square_at(b, x, y)->Some_0.color != c
                &&& spec_threatens(
                    b,
                    square_at(b, x, y)->Some_0,
                    Position { x: x as i32, y: y as i32, z: 0 },
                    k.0,
                    k.1,
                )
            },
    }
}

impl Piece {
    /// Whether this piece, standing at `position`, could capture a king
    /// on `king_position` with one move of its range.
    #[verifier::loop_isolation(false)]
    pub fn can_capture_king(
        &self,
        position: Position,
        board: &Board,
        king_position: Position,
    ) -> (r: bool)
        requires
            wf_board(board@),
            0 <= position.x < 9,
            0 <= position.y < 9,
        ensures
            r == spec_threatens(
                board@,
                *self,
                position,
                king_position.x as int,
                king_position.y as int,
            ),
    {
        let move_range = self.create_move_range(position, board);
        let mut i: usize = 0;
        while i < move_range.len()
            invariant
                i <= move_range@.len(),
                forall|j: int|
                    0 <= j < i ==> !((#[trigger] move_range@[j]).to.x == king_position.x
                        && move_range@[j].to.y == king_position.y),
            decreases move_range@.len() - i,
        {
            let m = move_range[i];
            if m.to.x == king_position.x && m.to.y == king_position.y {
                return true;
            }
            i = i + 1;
        }
        false
    }
}

/// Find the square of `color`'s king, if one stands on the board.
pub fn find_king_position(board: &Board, color: Color) -> (r: Option<Position>)
    requires
        wf_board(board@),
    ensures
        r is Some <==> spec_find_king(board@, color) is Some,
        spec_find_king(board@, color) matches Some(k) ==> r == Some(
            Position { x: k.0 as i32, y: k.1 as i32, z: 0 },
        ),
{
    let mut i: usize = 0;
    while i < 81
        invariant
            wf_board(board@),
            i <= 81,
            spec_find_king(board@, color) == spec_find_king_from(board@, color, i as int),
        decreases 81 - i,
    {
        match board[i] {
            Some(p) => {
                if p.piece_type == PieceType::King && p.color == color {
                    return Some(Position::new((i % 9) as i32, (i / 9) as i32, 0));
                }
            }
            None => {}
        }
        i = i + 1;
    }
    None
}

/// Whether side `color` stands in check: some opposing piece's move
/// range covers the king's square.  The king must be on the board.
#[verifier::loop_isolation(false)]
pub fn is_checked(board: &Board, color: Color) -> (r: bool)
    requires
        wf_board(board@),
        spec_has_king(board@, color),
    ensures
        r == spec_in_check(board@, color),
{
    proof {
        lemma_has_king_find(board@, color);
    }
    let kp_opt = find_king_position(board, color);
    let kp = match kp_opt {
        Some(p) => p,
        None => {
            proof {
                assert(false);
            }
            return false;
        }
    };
    let ghost k = spec_find_king(board@, color)->Some_0;
    let mut i: usize = 0;
    while i < 81
        invariant
            i <= 81,
            forall|x: int, y: int|
                on_board(x, y) && sq_idx(x, y) < i ==> !{
                    &&& #[trigger] square_at(board@, x, y) is Some
                    &&& square_at(board@, x, y)->Some_0.color != color
                    &&& spec_threatens(
                        board@,
                        square_at(board@, x, y)->Some_0,
                        Position { x: x as i32, y: y as i32, z: 0 },
                        k.0,
                        k.1,
                    )
                },
        decreases 81 - i,
    {
        match board[i] {
            Some(piece) => {
                if !(piece.color == color) {
                    let pos = Position::new((i % 9) as i32, (i / 9) as i32, 0);
                    if piece.can_capture_king(pos, board, kp) {
                        proof {
                            let x = i as int % 9;
                            let y = i as int / 9;
                            assert(sq_idx(x, y) == i);
                            assert(square_at(board@, x, y) == board@[i as int]);
                        }
                        return true;
                    }
                }
            }
            None => {}
        }
        i = i + 1;
        proof {
            assert forall|x: int, y: int| on_board(x, y) && sq_idx(x, y) < i implies !{
                &&& #[trigger] square_at(board@, x, y) is Some
                &&& square_at(board@, x, y)->Some_0.color != color
                &&& spec_threatens(
                    board@,
                    square_at(board@, x, y)->Some_0,
                    Position { x: x as i32, y: y as i32, z: 0 },
                    k.0,
                    k.1,
                )
            } by {
                if sq_idx(x, y) == i - 1 {
                    assert(square_at(board@, x, y) == board@[i - 1]);
                }
            }
        }
    }
    proof {
        if spec_in_check(board@, color) {
            let (x, y) = choose|x: int, y: int|
                {
                    &&& on_board(x, y)
                    &&& #[trigger] square_at(board@, x, y) is Some
                    &&& square_at(board@, x, y)->Some_0.color != color
                    &&& spec_threatens(
                        board@,
                        square_at(board@, x, y)->Some_0,
                        Position { x: x as i32, y: y as i32, z: 0 },
                        k.0,
                        k.1,
                    )
                };
            assert(sq_idx(x, y) < 81);
            assert(false);
        }
    }
    false
}

/// Two distinct board squares have distinct flat indices.
pub proof fn lemma_sq_idx_inj(x1: int, y1: int, x2: int, y2: int)
    requires
        on_board(x1, y1),
        on_board(x2, y2),
        sq_idx(x1, y1) == sq_idx(x2, y2),
    ensures
        x1 == x2 && y1 == y2,
{
}

/// A side's own candidate move never removes that side's king.
pub proof fn lemma_own_king_preserved(bs: BoardsV, turn: Color, m: LegalMove)
    requires
        wf_boards(bs),
        spec_gen_props(bs, turn, m),
        spec_has_king(bs.main, turn),
    ensures
        spec_has_king(spec_move_piece(bs, m).main, turn),
{
    let nb = spec_move_piece(bs, m);
    let king = Piece { piece_type: PieceType::King, color: turn };
    let fi = sq_idx(m.from.x as int, m.from.y as int);
    let ti = sq_idx(m.to.x as int, m.to.y as int);
    if m.from.z == 1 {
        let k = choose|i: int| 0 <= i < 81 && #[trigger] bs.main[i] == Some(king);
        assert(bs.main[ti] is None);
        assert(nb.main[k] == Some(king));
    } else {
        let src = bs.main[fi]->Some_0;
        if src.piece_type == PieceType::King {
            assert(fi != ti);
            assert(nb.main[ti] == Some(src));
            assert(0 <= ti < 81);
        } else {
            let k = choose|i: int| 0 <= i < 81 && #[trigger] bs.main[i] == Some(king);
            assert(k != fi);
            assert(k != ti);
            assert(nb.main[k] == Some(king));
        }
    }
}

/// While the opposing side is not in check, no candidate of the mover
/// can capture the opposing king, so that king survives every candidate.
pub proof fn lemma_opp_king_preserved(bs: BoardsV, turn: Color, m: LegalMove)
    requires
        wf_boards(bs),
        spec_gen_props(bs, turn, m),
        spec_has_king(bs.main, spec_opponent(turn)),
        !spec_in_check(bs.main, spec_opponent(turn)),
    ensures
        spec_has_king(spec_move_piece(bs, m).main, spec_opponent(turn)),
{
    let opp = spec_opponent(turn);
    let nb = spec_move_piece(bs, m);
    let king = Piece { piece_type: PieceType::King, color: opp };
    let fi = sq_idx(m.from.x as int, m.from.y as int);
    let ti = sq_idx(m.to.x as int, m.to.y as int);
    assert(opp != turn);
    lemma_has_king_find(bs.main, opp);
    let k = spec_find_king(bs.main, opp)->Some_0;
    let ki = sq_idx(k.0, k.1);
    if ki == ti {
        // the move would capture the very king the check scan watches,
        // so the mover was giving check already
        lemma_sq_idx_inj(k.0, k.1, m.to.x as int, m.to.y as int);
        assert(m.from.z == 0);
        let src = bs.main[fi]->Some_0;
        let range = spec_move_range(bs.main, src, m.from);
        let i = choose|i: int| 0 <= i < range.len() && range[i] == m;
        assert(range[i].to.x == k.0 && range[i].to.y == k.1);
        assert(spec_threatens(bs.main, src, m.from, k.0, k.1));
        assert(m.from == (Position { x: m.from.x, y: m.from.y, z: 0 }));
        assert(square_at(bs.main, m.from.x as int, m.from.y as int) == Some(src));
        assert(spec_in_check(bs.main, opp));
        assert(false);
    } else {
        if m.from.z == 1 {
            assert(nb.main[ki] == bs.main[ki]);
        } else {
            assert(ki != fi);
            assert(nb.main[ki] == bs.main[ki]);
        }
        assert(nb.main[ki] == Some(king));
    }
}

/// Whether every candidate reply of side `turn` leaves `turn`'s own king
/// in check: generation plus the self-check test find no way out.
pub open spec fn spec_checkmated(bs: BoardsV, c: Color) -> bool {
    forall|i: int|
        0 <= i < spec_create_move_range(bs, c).len() ==> spec_in_check(
            spec_move_piece(bs, #[trigger] spec_create_move_range(bs, c)[i]).main,
            c,
        )
}

/// Whether side `turn` is checkmated: no candidate move of `turn`,
/// applied to a copy of the position, leaves `turn` out of check.  The
/// drop-pawn-mate exclusion is deliberately not consulted here, so the
/// test is one self-contained ply.
#[verifier::loop_isolation(false)]
pub fn is_checkmate(boards: &Boards, turn: Color) -> (r: bool)
    requires
        wf_boards(boards@),
        spec_has_king(boards@.main, turn),
    ensures
        r == spec_checkmated(boards@, turn),
{
    proof {
        lemma_gen_props(boards@, turn);
    }
    let range = create_move_range(boards, turn);
    let mut i: usize = 0;
    while i < range.len()
        invariant
            i <= range@.len(),
            forall|j: int|
                0 <= j < i ==> spec_in_check(
                    spec_move_piece(boards@, #[trigger] range@[j]).main,
                    turn,
                ),
        decreases range@.len() - i,
    {
        let m = range[i];
        proof {
            assert(spec_create_move_range(boards@, turn).contains(m));
            lemma_own_king_preserved(boards@, turn, m);
        }
        let nb = crate::board::move_piece(boards, &m);
        if !is_checked(&nb.main, turn) {
            proof {
                assert(!spec_in_check(
                    spec_move_piece(boards@, spec_create_move_range(boards@, turn)[i as int]).main,
                    turn,
                ));
            }
            return false;
        }
        i = i + 1;
    }
    true
}

} // verus!
