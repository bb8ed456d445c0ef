//! The turn-based game state machine: full legality filtering (self-check
//! and drop-pawn-mate), the mate-in-one short-circuit, repetition
//! avoidance against the game's history, and adoption of the position the
//! caller's evaluator picked.

use vstd::prelude::*;

use crate::board::{
    copy_boards, lemma_fill_cells_owner, move_piece, pool_ok, spec_fill_cells,
    spec_initial_boards, spec_move_piece, spec_pool_ok, spec_slot_owner, sq_idx, square_at,
    tier_sel, wf_boards, boards_eq, create_initial_board, Boards, BoardsV, LegalMove,
};
use crate::check::{
    is_checked, is_checkmate, lemma_opp_king_preserved, lemma_own_king_preserved, spec_checkmated,
    spec_has_king, spec_in_check,
};
use crate::movegen::{
    create_move_range, lemma_gen_props, spec_create_move_range, spec_gen_props,
};
use crate::piece::{spec_opponent, Color, Piece, PieceType};

verus! {

/// The two states of a running game: still playing, or decided with the
/// winning side.
#[derive(Clone, Copy, Debug, PartialEq, Eq, Structural)]
pub enum GameState {
    Playing,
    Checkmate(Color),
}

/// A sound playing position: both kings stand on the board, the side
/// that just moved did not leave its own king in check, and every pool
/// piece sits in its own side's region.
pub open spec fn spec_position_ok(bs: BoardsV, turn: Color) -> bool {
    &&& spec_has_king(bs.main, Color::Black)
    &&& spec_has_king(bs.main, Color::White)
    &&& !spec_in_check(bs.main, spec_opponent(turn))
    &&& spec_pool_ok(bs.pool)
}

/// Whether `m` drops a pawn from the pool.
pub open spec fn spec_is_pawn_drop(bs: BoardsV, m: LegalMove) -> bool {
    &&& m.from.z == 1
    &&& bs.pool[sq_idx(m.from.x as int, m.from.y as int)] matches Some(p) && p.piece_type
        == PieceType::Pawn
}

/// The two-stage legality test of a candidate: it must not leave the
/// mover's own king in check, and a pawn drop must not checkmate the
/// opponent on the spot.
pub open spec fn spec_move_ok(bs: BoardsV, turn: Color, m: LegalMove) -> bool {
    &&& !spec_in_check(spec_move_piece(bs, m).main, turn)
    &&& !(spec_is_pawn_drop(bs, m) && spec_checkmated(spec_move_piece(bs, m), spec_opponent(turn)))
}

/// The legality predicate as a function value, for filtering.
pub open spec fn legal_pred(bs: BoardsV, turn: Color) -> spec_fn(LegalMove) -> bool {
    |m: LegalMove| spec_move_ok(bs, turn, m)
}

/// The fully legal moves of `turn`, in generation order.
pub open spec fn spec_legal_moves(bs: BoardsV, turn: Color) -> Seq<LegalMove> {
    spec_create_move_range(bs, turn).filter(legal_pred(bs, turn))
}

/// The positions the legal moves lead to, in the same order.
pub open spec fn spec_legal_boards(bs: BoardsV, turn: Color) -> Seq<BoardsV> {
    spec_legal_moves(bs, turn).map_values(|m: LegalMove| spec_move_piece(bs, m))
}

/// The first index at or after `i` whose position checkmates `loser`.
pub open spec fn spec_first_mate_from(lb: Seq<BoardsV>, loser: Color, i: int) -> Option<int>
    decreases lb.len() - i,
{
    if i < 0 || i >= lb.len() {
        None
    } else if spec_checkmated(lb[i], loser) {
        Some(i)
    } else {
        spec_first_mate_from(lb, loser, i + 1)
    }
}

/// The repetition predicate: keep a position only if it never occurred
/// in the game's history.
pub open spec fn rep_pred(hist: Seq<BoardsV>) -> spec_fn(BoardsV) -> bool {
    |b: BoardsV| !hist.contains(b)
}

/// The candidate positions that survive repetition avoidance.
pub open spec fn spec_survivors(lb: Seq<BoardsV>, hist: Seq<BoardsV>) -> Seq<BoardsV> {
    lb.filter(rep_pred(hist))
}

/// The piece a move takes off its source square or pool slot.
pub open spec fn spec_moving_piece(bs: BoardsV, m: LegalMove) -> Piece {
    tier_sel(bs, m.from.z as int)[sq_idx(m.from.x as int, m.from.y as int)]->Some_0
}

/// Every fully legal move is a generated candidate and passes the
/// legality test.
pub proof fn lemma_legal_moves_props(bs: BoardsV, turn: Color)
    requires
        wf_boards(bs),
    ensures
        forall|m: LegalMove| #[trigger] spec_legal_moves(bs, turn).contains(m) ==> spec_gen_props(
            bs,
            turn,
            m,
        ) && spec_move_ok(bs, turn, m),
{
    lemma_gen_props(bs, turn);
    assert forall|m: LegalMove| #[trigger] spec_legal_moves(bs, turn).contains(m)
        implies spec_gen_props(bs, turn, m) && spec_move_ok(bs, turn, m) by {
        spec_create_move_range(bs, turn).lemma_filter_contains_rev(legal_pred(bs, turn), m);
        let i = choose|i: int|
            0 <= i < spec_legal_moves(bs, turn).len() && spec_legal_moves(bs, turn)[i] == m;
        spec_create_move_range(bs, turn).lemma_filter_pred(legal_pred(bs, turn), i);
    }
}

/// All fully legal moves of `turn`: the generated candidates minus those
/// leaving the mover's own king in check and minus the pawn drops that
/// would checkmate the opponent outright.
#[verifier::loop_isolation(false)]
pub fn generate_legal_moves(boards: &Boards, turn: Color) -> (r: Vec<LegalMove>)
    requires
        wf_boards(boards@),
        spec_position_ok(boards@, turn),
    ensures
        r@ == spec_legal_moves(boards@, turn),
{
    proof {
        lemma_gen_props(boards@, turn);
    }
    let opp = turn.opponent();
    let cands = create_move_range(boards, turn);
    let mut out: Vec<LegalMove> = Vec::new();
    proof {
        broadcast use vstd::seq_lib::group_filter_ensures;

        assert(cands@.take(0) =~= Seq::<LegalMove>::empty());
        reveal(Seq::filter);
    }
    let mut i: usize = 0;
    while i < cands.len()
        invariant
            i <= cands@.len(),
            out@ == cands@.take(i as int).filter(legal_pred(boards@, turn)),
        decreases cands@.len() - i,
    {
        let ghost out0 = out@;
        let m = cands[i];
        proof {
            assert(cands@.contains(m));
            lemma_own_king_preserved(boards@, turn, m);
            lemma_opp_king_preserved(boards@, turn, m);
        }
        let nb = move_piece(boards, &m);
        let self_check = is_checked(&nb.main, turn);
        let mut keep = !self_check;
        if keep && m.from.z == 1 {
            let fi = (m.from.y as usize) * 9 + (m.from.x as usize);
            let is_pawn = match boards.pool[fi] {
                Some(p) => p.piece_type == PieceType::Pawn,
                None => false,
            };
            if is_pawn {
                if is_checkmate(&nb, opp) {
                    keep = false;
                }
            }
        }
        proof {
            assert(keep == spec_move_ok(boards@, turn, m));
        }
        if keep {
            out.push(m);
        }
        i = i + 1;
        proof {
            broadcast use vstd::seq_lib::group_filter_ensures;

            assert(cands@.take(i as int) =~= cands@.take(i - 1).push(m));
            Seq::lemma_filter_push(cands@.take(i - 1), m, legal_pred(boards@, turn));
            assert(out@ == cands@.take(i as int).filter(legal_pred(boards@, turn)));
        }
    }
    proof {
        assert(cands@.take(cands@.len() as int) =~= cands@);
    }
    out
}

/// Apply each legal move of `turn` to a copy of the position.
#[verifier::loop_isolation(false)]
fn apply_legal(boards: &Boards, turn: Color, moves: &Vec<LegalMove>) -> (r: Vec<Boards>)
    requires
        wf_boards(boards@),
        moves@ == spec_legal_moves(boards@, turn),
    ensures
        r@.len() == spec_legal_boards(boards@, turn).len(),
        forall|j: int|
            0 <= j < r@.len() ==> (#[trigger] r@[j])@ == spec_legal_boards(boards@, turn)[j]
                && wf_boards(r@[j]@),
{
    proof {
        lemma_legal_moves_props(boards@, turn);
    }
    let mut r: Vec<Boards> = Vec::new();
    let mut i: usize = 0;
    while i < moves.len()
        invariant
            i <= moves@.len(),
            r@.len() == i,
            forall|j: int|
                0 <= j < i ==> (#[trigger] r@[j])@ == spec_legal_boards(boards@, turn)[j]
                    && wf_boards(r@[j]@),
        decreases moves@.len() - i,
    {
        let m = moves[i];
        proof {
            assert(spec_legal_moves(boards@, turn).contains(m));
        }
        let nb = move_piece(boards, &m);
        r.push(nb);
        i = i + 1;
    }
    r
}

/// Whether the history already holds this exact position.
#[verifier::loop_isolation(false)]
fn history_contains(record: &Vec<Boards>, b: &Boards) -> (r: bool)
    ensures
        r == record@.map_values(|x: Boards| x@).contains(b@),
{
    let ghost hist = record@.map_values(|x: Boards| x@);
    let mut i: usize = 0;
    while i < record.len()
        invariant
            i <= record@.len(),
            forall|j: int| 0 <= j < i ==> (#[trigger] record@[j])@ != b@,
        decreases record@.len() - i,
    {
        if boards_eq(&record[i], b) {
            proof {
                assert(hist[i as int] == b@);
            }
            return true;
        }
        i = i + 1;
    }
    proof {
        if hist.contains(b@) {
            let j = choose|j: int| 0 <= j < hist.len() && hist[j] == b@;
            assert(record@[j]@ == b@);
            assert(false);
        }
    }
    false
}

/// The candidate positions that do not repeat the history, in order.
#[verifier::loop_isolation(false)]
fn filter_repeats(lbs: &Vec<Boards>, record: &Vec<Boards>) -> (r: Vec<Boards>)
    ensures
        ({
            let lbv = lbs@.map_values(|x: Boards| x@);
            let hist = record@.map_values(|x: Boards| x@);
            &&& r@.map_values(|x: Boards| x@) == spec_survivors(lbv, hist)
            &&& forall|j: int|
                0 <= j < r@.len() ==> exists|k: int|
                    0 <= k < lbs@.len() && (#[trigger] r@[j])@ == lbs@[k]@
        }),
{
    let ghost lbv = lbs@.map_values(|x: Boards| x@);
    let ghost hist = record@.map_values(|x: Boards| x@);
    let mut r: Vec<Boards> = Vec::new();
    proof {
        broadcast use vstd::seq_lib::group_filter_ensures;

        assert(lbv.take(0) =~= Seq::<BoardsV>::empty());
        reveal(Seq::filter);
        assert(r@.map_values(|x: Boards| x@) =~= lbv.take(0).filter(rep_pred(hist)));
    }
    let mut i: usize = 0;
    while i < lbs.len()
        invariant
            i <= lbs@.len(),
            r@.map_values(|x: Boards| x@) == lbv.take(i as int).filter(rep_pred(hist)),
            forall|j: int|
                0 <= j < r@.len() ==> exists|k: int|
                    0 <= k < lbs@.len() && (#[trigger] r@[j])@ == lbs@[k]@,
        decreases lbs@.len() - i,
    {
        let ghost r0 = r@;
        let dup = history_contains(record, &lbs[i]);
        if !dup {
            let c = copy_boards(&lbs[i]);
            r.push(c);
            proof {
                assert(r@[r@.len() - 1]@ == lbs@[i as int]@);
            }
        }
        i = i + 1;
        proof {
            assert(lbv.take(i as int) =~= lbv.take(i - 1).push(lbv[i - 1]));
            Seq::lemma_filter_push(lbv.take(i - 1), lbv[i - 1], rep_pred(hist));
            assert(rep_pred(hist)(lbv[i - 1]) == !dup);
            assert(r@.map_values(|x: Boards| x@) =~= lbv.take(i as int).filter(rep_pred(hist)));
        }
    }
    proof {
        assert(lbv.take(lbv.len() as int) =~= lbv);
    }
    r
}

/// A running game: the current position, the side to move, and every
/// position adopted so far.  Positions are only ever replaced wholesale,
/// never mutated in place.
pub struct Game {
    boards: Boards,
    turn: Color,
    boards_record: Vec<Boards>,
}

/// The mathematical model of a game.
#[verifier::ext_equal]
pub struct GameV {
    pub boards: BoardsV,
    pub turn: Color,
    pub record: Seq<BoardsV>,
}

impl View for Game {
    type V = GameV;

    closed spec fn view(&self) -> GameV {
        GameV {
            boards: self.boards@,
            turn: self.turn,
            record: self.boards_record@.map_values(|b: Boards| b@),
        }
    }
}

/// A structurally well-formed game.
pub open spec fn wf_game(g: GameV) -> bool {
    wf_boards(g.boards) && forall|j: int| 0 <= j < g.record.len() ==> wf_boards(#[trigger] g.record[j])
}

impl Game {
    /// A fresh game: the standard opening position, Black to move, no
    /// history yet.
    pub fn new() -> (g: Game)
        ensures
            g@.boards == spec_initial_boards(),
            g@.turn == Color::Black,
            g@.record == Seq::<BoardsV>::empty(),
            wf_game(g@),
    {
        let g = Game {
            boards: create_initial_board(),
            turn: Color::Black,
            boards_record: Vec::new(),
        };
        proof {
            assert(g@.record =~= Seq::<BoardsV>::empty());
        }
        g
    }

    /// A game resumed from an arbitrary position with `turn` to move
    /// and an empty history.
    pub fn from_position(boards: &Boards, turn: Color) -> (g: Game)
        requires
            wf_boards(boards@),
        ensures
            g@.boards == boards@,
            g@.turn == turn,
            g@.record == Seq::<BoardsV>::empty(),
            wf_game(g@),
    {
        let g = Game { boards: copy_boards(boards), turn, boards_record: Vec::new() };
        proof {
            assert(g@.record =~= Seq::<BoardsV>::empty());
        }
        g
    }

    /// The side to move.
    pub fn current_turn(&self) -> (r: Color)
        ensures
            r == self@.turn,
    {
        self.turn
    }

    /// The current position.
    pub fn boards(&self) -> (r: &Boards)
        ensures
            r@ == self@.boards,
    {
        &self.boards
    }

    /// The positions adopted so far, oldest first.
    pub fn record(&self) -> (r: &Vec<Boards>)
        ensures
            r@.map_values(|b: Boards| b@) == self@.record,
    {
        &self.boards_record
    }

    /// Whether the position invariant holds for the side to move: both
    /// kings present, the opponent not already in check, and the pool
    /// sound.  When this is false the position is corrupt and the game
    /// must be abandoned.
    pub fn position_sound(&self) -> (r: bool)
        requires
            wf_game(self@),
        ensures
            r == spec_position_ok(self@.boards, self@.turn),
    {
        let kb = crate::check::find_king_position(&self.boards.main, Color::Black);
        let kw = crate::check::find_king_position(&self.boards.main, Color::White);
        proof {
            crate::check::lemma_has_king_find(self@.boards.main, Color::Black);
            crate::check::lemma_has_king_find(self@.boards.main, Color::White);
        }
        if kb.is_none() || kw.is_none() {
            return false;
        }
        if !pool_ok(&self.boards.pool) {
            return false;
        }
        let opp = self.turn.opponent();
        !is_checked(&self.boards.main, opp)
    }

    /// The legal next positions after repetition avoidance: what the
    /// caller's evaluator is asked to choose among.
    pub fn candidates(&self) -> (r: Vec<Boards>)
        requires
            wf_game(self@),
            spec_position_ok(self@.boards, self@.turn),
        ensures
            r@.map_values(|b: Boards| b@) == spec_survivors(
                spec_legal_boards(self@.boards, self@.turn),
                self@.record,
            ),
    {
        let moves = generate_legal_moves(&self.boards, self.turn);
        let lbs = apply_legal(&self.boards, self.turn, &moves);
        proof {
            assert(lbs@.map_values(|x: Boards| x@) =~= spec_legal_boards(
                self@.boards,
                self@.turn,
            ));
        }
        filter_repeats(&lbs, &self.boards_record)
    }

    /// One turn of the state machine.  With the fully legal move set
    /// empty the mover is checkmated; otherwise a mate-in-one is adopted
    /// at once, bypassing the caller's choice; otherwise positions
    /// already in the history are discarded, and running out of
    /// positions there also counts as the mover's loss; otherwise the
    /// caller's chosen candidate (by index into `candidates()`) is
    /// adopted, recorded, and the turn passes over.
    #[verifier::loop_isolation(false)]
    pub fn next(&mut self, choice: usize) -> (r: GameState)
        requires
            wf_game(old(self)@),
            spec_position_ok(old(self)@.boards, old(self)@.turn),
            ({
                let s = spec_survivors(
                    spec_legal_boards(old(self)@.boards, old(self)@.turn),
                    old(self)@.record,
                );
                s.len() == 0 || choice < s.len()
            }),
        ensures
            wf_game(final(self)@),
            ({
                let bs = old(self)@.boards;
                let turn = old(self)@.turn;
                let hist = old(self)@.record;
                let lm = spec_legal_moves(bs, turn);
                let lb = spec_legal_boards(bs, turn);
                let mate = spec_first_mate_from(lb, spec_opponent(turn), 0);
                let surv = spec_survivors(lb, hist);
                &&& (lm.len() == 0 ==> final(self)@ == (GameV {
                    boards: bs,
                    turn: spec_opponent(turn),
                    record: hist,
                }) && r == GameState::Checkmate(spec_opponent(turn)))
                &&& (lm.len() > 0 && mate is Some ==> final(self)@ == (GameV {
                    boards: lb[mate->Some_0],
                    turn,
                    record: hist.push(lb[mate->Some_0]),
                }) && r == GameState::Checkmate(turn))
                &&& (lm.len() > 0 && mate is None && surv.len() == 0 ==> final(self)@ == (GameV {
                    boards: bs,
                    turn: spec_opponent(turn),
                    record: hist,
                }) && r == GameState::Checkmate(spec_opponent(turn)))
                &&& (lm.len() > 0 && mate is None && surv.len() > 0 ==> final(self)@ == (GameV {
                    boards: surv[choice as int],
                    turn: spec_opponent(turn),
                    record: hist.push(surv[choice as int]),
                }) && r == GameState::Playing)
            }),
    {
        let ghost bs0 = self@.boards;
        let ghost turn0 = self@.turn;
        let ghost hist0 = self@.record;
        let ghost lb = spec_legal_boards(bs0, turn0);
        let turn = self.turn;
        let opp = turn.opponent();
        proof {
            lemma_legal_moves_props(bs0, turn0);
        }
        let moves = generate_legal_moves(&self.boards, turn);
        if moves.len() == 0 {
            self.turn = opp;
            return GameState::Checkmate(opp);
        }
        let lbs = apply_legal(&self.boards, turn, &moves);
        proof {
            assert(lbs@.map_values(|x: Boards| x@) =~= lb);
        }
        // mate-in-one short-circuit
        let mut i: usize = 0;
        while i < lbs.len()
            invariant
                i <= lbs@.len(),
                self@ == old(self)@,
                spec_first_mate_from(lb, spec_opponent(turn0), 0) == spec_first_mate_from(
                    lb,
                    spec_opponent(turn0),
                    i as int,
                ),
            decreases lbs@.len() - i,
        {
            proof {
                assert(spec_legal_moves(bs0, turn0).contains(moves@[i as int]));
                lemma_opp_king_preserved(bs0, turn0, moves@[i as int]);
                assert(lbs@[i as int]@ == lb[i as int]);
            }
            if is_checkmate(&lbs[i], opp) {
                proof {
                    assert(spec_checkmated(lb[i as int], spec_opponent(turn0)));
                    assert(spec_first_mate_from(lb, spec_opponent(turn0), i as int) == Some(
                        i as int,
                    ));
                }
                let chosen = copy_boards(&lbs[i]);
                let recorded = copy_boards(&lbs[i]);
                self.boards = chosen;
                self.boards_record.push(recorded);
                proof {
                    assert(self@.record =~= hist0.push(lb[i as int]));
                    assert(wf_boards(lb[i as int]));
                }
                return GameState::Checkmate(turn);
            }
            i = i + 1;
        }
        proof {
            assert(spec_first_mate_from(lb, spec_opponent(turn0), lbs@.len() as int) is None);
        }
        // repetition avoidance
        let ghost surv = spec_survivors(lb, hist0);
        let survivors = filter_repeats(&lbs, &self.boards_record);
        proof {
            assert(self.boards_record@.map_values(|x: Boards| x@) == hist0);
            assert(lbs@.map_values(|x: Boards| x@) == lb);
            assert(survivors@.map_values(|x: Boards| x@) == surv);
        }
        if survivors.len() == 0 {
            self.turn = opp;
            return GameState::Checkmate(opp);
        }
        proof {
            assert(survivors@.len() == surv.len());
            assert(choice < survivors@.len());
        }
        let chosen = copy_boards(&survivors[choice]);
        let recorded = copy_boards(&survivors[choice]);
        proof {
            assert(chosen@ == survivors@.map_values(|x: Boards| x@)[choice as int]);
            assert(chosen@ == surv[choice as int]);
            let k = choose|k: int|
                0 <= k < lbs@.len() && survivors@[choice as int]@ == lbs@[k]@;
            assert(wf_boards(chosen@));
        }
        self.boards = chosen;
        self.boards_record.push(recorded);
        self.turn = opp;
        proof {
            assert(self@.record =~= hist0.push(surv[choice as int]));
        }
        GameState::Playing
    }

    /// The fully legal moves of the side to move, each paired with the
    /// piece it moves; with none, the mover is checkmated and the
    /// opponent named the winner.
    pub fn get_legal_moves(&self) -> (r: Result<Vec<(Piece, LegalMove)>, GameState>)
        requires
            wf_game(self@),
            spec_position_ok(self@.boards, self@.turn),
        ensures
            ({
                let lm = spec_legal_moves(self@.boards, self@.turn);
                &&& (lm.len() == 0 <==> r is Err)
                &&& (r matches Err(gs) ==> gs == GameState::Checkmate(spec_opponent(self@.turn)))
                &&& (r matches Ok(v) ==> v@.len() == lm.len() && forall|j: int|
                    0 <= j < lm.len() ==> #[trigger] v@[j] == (
                        spec_moving_piece(self@.boards, lm[j]),
                        lm[j],
                    ))
            }),
    {
        proof {
            lemma_legal_moves_props(self@.boards, self@.turn);
        }
        let moves = generate_legal_moves(&self.boards, self.turn);
        if moves.len() == 0 {
            return Err(GameState::Checkmate(self.turn.opponent()));
        }
        let mut v: Vec<(Piece, LegalMove)> = Vec::new();
        let mut i: usize = 0;
        #[verifier::loop_isolation(false)]
        while i < moves.len()
            invariant
                i <= moves@.len(),
                v@.len() == i,
                forall|j: int|
                    0 <= j < i ==> #[trigger] v@[j] == (
                        spec_moving_piece(self@.boards, moves@[j]),
                        moves@[j],
                    ),
            decreases moves@.len() - i,
        {
            let m = moves[i];
            proof {
                assert(spec_legal_moves(self@.boards, self@.turn).contains(m));
            }
            let fi = (m.from.y as usize) * 9 + (m.from.x as usize);
            let p = if m.from.z == 1 {
                self.boards.pool[fi].unwrap()
            } else {
                self.boards.main[fi].unwrap()
            };
            v.push((p, m));
            i = i + 1;
        }
        Ok(v)
    }

    /// Apply one chosen legal move: adopt the resulting position, record
    /// it, and pass the turn over.
    pub fn play_next(&mut self, movement: &LegalMove)
        requires
            wf_game(old(self)@),
            spec_position_ok(old(self)@.boards, old(self)@.turn),
            spec_legal_moves(old(self)@.boards, old(self)@.turn).contains(*movement),
        ensures
            wf_game(final(self)@),
            final(self)@.boards == spec_move_piece(old(self)@.boards, *movement),
            final(self)@.turn == spec_opponent(old(self)@.turn),
            final(self)@.record == old(self)@.record.push(final(self)@.boards),
    {
        proof {
            lemma_legal_moves_props(self@.boards, self@.turn);
        }
        let ghost hist0 = self@.record;
        let nb = move_piece(&self.boards, movement);
        let recorded = copy_boards(&nb);
        self.boards = nb;
        self.boards_record.push(recorded);
        self.turn = self.turn.opponent();
        proof {
            assert(self@.record =~= hist0.push(self@.boards));
        }
    }
}

/// Drop-pawn-mate exclusion: a pawn drop that would checkmate the
/// opponent on the spot never appears among the legal moves.
pub proof fn lemma_no_drop_pawn_mate(bs: BoardsV, turn: Color, i: int)
    requires
        wf_boards(bs),
        0 <= i < spec_legal_moves(bs, turn).len(),
        spec_is_pawn_drop(bs, spec_legal_moves(bs, turn)[i]),
    ensures
        !spec_checkmated(
            spec_move_piece(bs, spec_legal_moves(bs, turn)[i]),
            spec_opponent(turn),
        ),
{
    spec_create_move_range(bs, turn).lemma_filter_pred(legal_pred(bs, turn), i);
}

/// At most one unpromoted pawn of side `c` stands on file `x`.
pub open spec fn spec_single_pawn_on_file(b: Seq<Option<Piece>>, x: int, c: Color) -> bool {
    forall|y1: int, y2: int|
        0 <= y1 < 9 && 0 <= y2 < 9 && y1 != y2 ==> !(crate::board::square_at(b, x, y1) == Some(
            Piece { piece_type: PieceType::Pawn, color: c },
        ) && crate::board::square_at(b, x, y2) == Some(
            Piece { piece_type: PieceType::Pawn, color: c },
        ))
}

/// Two-pawns exclusion: a legal pawn drop always drops the mover's own
/// pawn, onto a file holding no unpromoted pawn of the mover, so the
/// file afterwards holds only the dropped pawn, never a second one.
pub proof fn lemma_no_two_pawns(bs: BoardsV, turn: Color, i: int)
    requires
        wf_boards(bs),
        spec_pool_ok(bs.pool),
        0 <= i < spec_legal_moves(bs, turn).len(),
        spec_is_pawn_drop(bs, spec_legal_moves(bs, turn)[i]),
    ensures
        spec_moving_piece(bs, spec_legal_moves(bs, turn)[i]).color == turn,
        !crate::movegen::spec_nifu(bs.main, spec_legal_moves(bs, turn)[i].to.x as int, turn),
        spec_single_pawn_on_file(
            spec_move_piece(bs, spec_legal_moves(bs, turn)[i]).main,
            spec_legal_moves(bs, turn)[i].to.x as int,
            turn,
        ),
{
    let m = spec_legal_moves(bs, turn)[i];
    lemma_legal_moves_props(bs, turn);
    assert(spec_legal_moves(bs, turn).contains(m));
    let pawn = spec_moving_piece(bs, m);
    let fx = m.from.x as int;
    let fy = m.from.y as int;
    // the drop's slot lies in one of the mover's regions, and by pool
    // soundness also in the dropped piece's own region; regions are
    // disjoint, so the dropped pawn is the mover's
    assert(square_at(bs.pool, fx, fy) == bs.pool[sq_idx(fx, fy)]);
    let pt0 = choose|pt: PieceType|
        #[trigger] spec_fill_cells(pt, turn).contains(((m.from.x as u8), (m.from.y as u8)));
    let cell = ((m.from.x as u8), (m.from.y as u8));
    let own_cells = spec_fill_cells(pawn.piece_type, pawn.color);
    assert(own_cells.contains(cell));
    let j0 = choose|j: int|
        0 <= j < spec_fill_cells(pt0, turn).len() && spec_fill_cells(pt0, turn)[j] == cell;
    let j1 = choose|j: int| 0 <= j < own_cells.len() && own_cells[j] == cell;
    lemma_fill_cells_owner(pt0, turn);
    lemma_fill_cells_owner(pawn.piece_type, pawn.color);
    assert(spec_slot_owner(cell.0 as int, cell.1 as int) == (pt0, turn));
    assert(spec_slot_owner(cell.0 as int, cell.1 as int) == (pawn.piece_type, pawn.color));
    assert(pawn.color == turn);
    let c = pawn.color;
    let pw = (Piece { piece_type: PieceType::Pawn, color: c });
    let nb = spec_move_piece(bs, m);
    let tx = m.to.x as int;
    let ty = m.to.y as int;
    let ti = sq_idx(tx, ty);
    assert(!crate::movegen::spec_nifu(bs.main, tx, c));
    assert(nb.main == bs.main.update(ti, Some(pawn)));
    assert forall|y1: int, y2: int|
        0 <= y1 < 9 && 0 <= y2 < 9 && y1 != y2 implies !(crate::board::square_at(nb.main, tx, y1)
        == Some(pw) && crate::board::square_at(nb.main, tx, y2) == Some(pw)) by {
        assert(sq_idx(tx, y1) != sq_idx(tx, y2));
        if sq_idx(tx, y1) != ti {
            assert(crate::board::square_at(nb.main, tx, y1) == crate::board::square_at(
                bs.main,
                tx,
                y1,
            ));
        }
        if sq_idx(tx, y2) != ti {
            assert(crate::board::square_at(nb.main, tx, y2) == crate::board::square_at(
                bs.main,
                tx,
                y2,
            ));
        }
    }
}

} // verus!
