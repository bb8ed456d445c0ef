//! Candidate move generation: per-piece range expansion (sliding,
//! stepping and jumping), drop candidates from the captured-piece pool
//! with the two-pawns exclusion, and the full deterministic enumeration
//! for a side.

use vstd::prelude::*;

use crate::board::{
    on_board, sq_idx, spec_fill_cells, spec_move_can_revolte, square_at, wf_board, wf_boards,
    fill_cells, lemma_fill_cells_bounds, Board, Boards, BoardsV, LegalMove, Position,
};
use crate::piece::{spec_can_revolte, spec_move_vec, Color, Piece, PieceType};

verus! {

/// The per-iteration step of a direction component: components of
/// magnitude 9 and above walk one square at a time, all others are taken
/// whole in a single step.
pub open spec fn spec_delta(v: i32) -> i32 {
    if v == 0 {
        0i32
    } else if v >= 9 {
        1i32
    } else if v <= -9 {
        -1i32
    } else {
        v
    }
}

/// How many steps a direction vector is walked: sliding vectors nine,
/// stepping and jumping vectors one.
pub open spec fn spec_steps(v: (i32, i32)) -> int {
    if v.0 >= 9 || v.0 <= -9 || v.1 >= 9 || v.1 <= -9 {
        9
    } else {
        1
    }
}

fn calc_delta(v: i32) -> (r: i32)
    ensures
        r == spec_delta(v),
{
    if v == 0 {
        0
    } else if v >= 9 {
        1
    } else if v <= -9 {
        -1
    } else {
        v
    }
}

/// The moves a piece emits for one reachable square: the plain move,
/// plus a promoting variant when the piece can promote and the move
/// crosses its promotion zone.
pub open spec fn spec_square_moves(p: Piece, from: Position, tx: int, ty: int) -> Seq<LegalMove> {
    let m = LegalMove {
        from,
        to: Position { x: tx as i32, y: ty as i32, z: 0 },
        revolute: false,
    };
    if spec_move_can_revolte(m, p.color) && spec_can_revolte(p.piece_type) {
        seq![m, LegalMove { from, to: m.to, revolute: true }]
    } else {
        seq![m]
    }
}

/// The moves along one direction, starting one step beyond `(cx, cy)`
/// with at most `rem` steps left: empty squares are entered and passed,
/// the first occupied square stops the walk and is entered only when it
/// holds an opponent piece, and the edge of the board stops it outright.
pub open spec fn spec_ray(
    b: Seq<Option<Piece>>,
    p: Piece,
    from: Position,
    cx: int,
    cy: int,
    dx: int,
    dy: int,
    rem: int,
) -> Seq<LegalMove>
    decreases rem,
{
    if rem <= 0 {
        Seq::empty()
    } else {
        let tx = cx + dx;
        let ty = cy + dy;
        if !on_board(tx, ty) {
            Seq::empty()
        } else {
            match square_at(b, tx, ty) {
                None => spec_square_moves(p, from, tx, ty) + spec_ray(
                    b,
                    p,
                    from,
                    tx,
                    ty,
                    dx,
                    dy,
                    rem - 1,
                ),
                Some(q) => if q.color == p.color {
                    Seq::empty()
                } else {
                    spec_square_moves(p, from, tx, ty)
                },
            }
        }
    }
}

/// The moves of a piece along the direction vectors `vs`, in order.
pub open spec fn spec_vec_moves(
    b: Seq<Option<Piece>>,
    p: Piece,
    from: Position,
    vs: Seq<(i32, i32)>,
) -> Seq<LegalMove>
    decreases vs.len(),
{
    if vs.len() == 0 {
        Seq::empty()
    } else {
        spec_ray(
            b,
            p,
            from,
            from.x as int,
            from.y as int,
            spec_delta(vs[0].0) as int,
            spec_delta(vs[0].1) as int,
            spec_steps(vs[0]),
        ) + spec_vec_moves(b, p, from, vs.drop_first())
    }
}

/// All board moves of a piece standing at `from`.
pub open spec fn spec_move_range(b: Seq<Option<Piece>>, p: Piece, from: Position) -> Seq<
    LegalMove,
> {
    spec_vec_moves(b, p, from, spec_move_vec(p.piece_type, p.color))
}

/// Whether file `x` already holds an unpromoted pawn of side `c`.
pub open spec fn spec_nifu(b: Seq<Option<Piece>>, x: int, c: Color) -> bool {
    exists|y: int|
        0 <= y < 9 && #[trigger] square_at(b, x, y) == Some(
            Piece { piece_type: PieceType::Pawn, color: c },
        )
}

/// Two-pawns test: whether the file of `m`'s target already holds an
/// unpromoted pawn of side `color`.
pub fn is_nifu(board: &Board, m: LegalMove, color: Color) -> (r: bool)
    requires
        wf_board(board@),
        0 <= m.to.x < 9,
    ensures
        r == spec_nifu(board@, m.to.x as int, color),
{
    let x = m.to.x as usize;
    let mut y: usize = 0;
    while y < 9
        invariant
            wf_board(board@),
            x == m.to.x as int,
            x < 9,
            y <= 9,
            forall|yy: int|
                0 <= yy < y ==> #[trigger] square_at(board@, x as int, yy) != Some(
                    Piece { piece_type: PieceType::Pawn, color },
                ),
        decreases 9 - y,
    {
        match board[y * 9 + x] {
            Some(piece) => {
                if piece.piece_type == PieceType::Pawn && piece.color == color {
                    proof {
                        assert(square_at(board@, x as int, y as int) == Some(
                            Piece { piece_type: PieceType::Pawn, color },
                        ));
                    }
                    return true;
                }
            }
            None => {}
        }
        y = y + 1;
    }
    false
}

/// The drop candidates over the board cells at or after flat index `i`:
/// one per empty square, except that a pawn may not be dropped on a file
/// that already holds an unpromoted pawn of its side.
pub open spec fn spec_put_from(
    b: Seq<Option<Piece>>,
    p: Piece,
    from: Position,
    i: int,
) -> Seq<LegalMove>
    decreases 81 - i,
{
    if i < 0 || i >= 81 {
        Seq::empty()
    } else {
        (if b[i] is None && !(p.piece_type == PieceType::Pawn && spec_nifu(b, i % 9, p.color)) {
            seq![
                LegalMove {
                    from,
                    to: Position { x: (i % 9) as i32, y: (i / 9) as i32, z: 0 },
                    revolute: false,
                },
            ]
        } else {
            Seq::empty()
        }) + spec_put_from(b, p, from, i + 1)
    }
}

/// All drop candidates of piece `p` held at pool slot `from`.
pub open spec fn spec_put_range(b: Seq<Option<Piece>>, p: Piece, from: Position) -> Seq<
    LegalMove,
> {
    spec_put_from(b, p, from, 0)
}

impl Piece {
    /// The drop candidates of this pool piece: one per empty board
    /// square, minus pawn drops barred by the two-pawns rule.
    #[verifier::loop_isolation(false)]
    pub fn create_put_range(&self, position: Position, board: &Board) -> (r: Vec<LegalMove>)
        requires
            wf_board(board@),
        ensures
            r@ == spec_put_range(board@, *self, position),
    {
        let mut out: Vec<LegalMove> = Vec::new();
        proof {
            assert(Seq::<LegalMove>::empty() + spec_put_from(board@, *self, position, 0)
                =~= spec_put_from(board@, *self, position, 0));
        }
        let mut i: usize = 0;
        while i < 81
            invariant
                i <= 81,
                spec_put_range(board@, *self, position) == out@ + spec_put_from(
                    board@,
                    *self,
                    position,
                    i as int,
                ),
            decreases 81 - i,
        {
            let ghost out0 = out@;
            let m = LegalMove {
                from: position,
                to: Position::new((i % 9) as i32, (i / 9) as i32, 0),
                revolute: false,
            };
            if board[i].is_none() {
                let barred = self.piece_type == PieceType::Pawn && is_nifu(board, m, self.color);
                if !barred {
                    out.push(m);
                }
            }
            i = i + 1;
            proof {
                let head = spec_put_from(board@, *self, position, i - 1);
                assert(head == (if board@[i - 1] is None && !(self.piece_type == PieceType::Pawn
                    && spec_nifu(board@, (i - 1) % 9, self.color)) {
                    seq![m]
                } else {
                    Seq::<LegalMove>::empty()
                }) + spec_put_from(board@, *self, position, i as int));
                assert(out@ + spec_put_from(board@, *self, position, i as int) =~= out0 + head);
            }
        }
        out
    }
}

/// All board-move candidates of side `turn` over the squares at or after
/// flat index `i`, in scan order.
pub open spec fn spec_board_moves_from(bs: BoardsV, turn: Color, i: int) -> Seq<LegalMove>
    decreases 81 - i,
{
    if i < 0 || i >= 81 {
        Seq::empty()
    } else {
        (match bs.main[i] {
            Some(p) => if p.color == turn {
                spec_move_range(
                    bs.main,
                    p,
                    Position { x: (i % 9) as i32, y: (i / 9) as i32, z: 0 },
                )
            } else {
                Seq::empty()
            },
            None => Seq::empty(),
        }) + spec_board_moves_from(bs, turn, i + 1)
    }
}

/// The pool slot holding the drop representative of a region: the
/// first occupied slot in fill order at or after `j`.
pub open spec fn spec_first_occupied_from(
    pool: Seq<Option<Piece>>,
    cells: Seq<(u8, u8)>,
    j: int,
) -> Option<int>
    decreases cells.len() - j,
{
    if j < 0 || j >= cells.len() {
        None
    } else if pool[sq_idx(cells[j].0 as int, cells[j].1 as int)] is Some {
        Some(j)
    } else {
        spec_first_occupied_from(pool, cells, j + 1)
    }
}

/// The drop candidates contributed by one pool region: pool pieces of a
/// region are interchangeable, so only the representative slot — the
/// first occupied one in the side's fill order — is expanded.
pub open spec fn spec_group_drops(bs: BoardsV, pt: PieceType, turn: Color) -> Seq<LegalMove> {
    let cells = spec_fill_cells(pt, turn);
    match spec_first_occupied_from(bs.pool, cells, 0) {
        None => Seq::empty(),
        Some(j) => {
            let x = cells[j].0 as int;
            let y = cells[j].1 as int;
            spec_put_range(
                bs.main,
                bs.pool[sq_idx(x, y)]->Some_0,
                Position { x: x as i32, y: y as i32, z: 1 },
            )
        },
    }
}

/// Every candidate of side `turn`: board moves in square scan order,
/// then the drops of each pool region in a fixed region order.
pub open spec fn spec_create_move_range(bs: BoardsV, turn: Color) -> Seq<LegalMove> {
    spec_board_moves_from(bs, turn, 0) + spec_group_drops(bs, PieceType::Pawn, turn)
        + spec_group_drops(bs, PieceType::Gold, turn)
        + spec_group_drops(bs, PieceType::Silver, turn)
        + spec_group_drops(bs, PieceType::Knight, turn)
        + spec_group_drops(bs, PieceType::Lance, turn)
        + spec_group_drops(bs, PieceType::Bishop, turn)
        + spec_group_drops(bs, PieceType::Rook, turn)
}

/// Append the plain and, when allowed, the promoting move to `seg`.
#[verifier::loop_isolation(false)]
fn push_square_moves(seg: &mut Vec<LegalMove>, p: Piece, from: Position, tx: i32, ty: i32)
    requires
        0 <= tx < 9,
        0 <= ty < 9,
    ensures
        final(seg)@ == old(seg)@ + spec_square_moves(p, from, tx as int, ty as int),
{
    let ghost seg0 = seg@;
    let m = LegalMove { from, to: Position::new(tx, ty, 0), revolute: false };
    seg.push(m);
    if m.can_revolte(p.color) && p.can_revolte() {
        seg.push(LegalMove { from, to: Position::new(tx, ty, 0), revolute: true });
    }
    proof {
        assert(seg@ =~= seg0 + spec_square_moves(p, from, tx as int, ty as int));
    }
}

impl Piece {
    /// The board moves of this piece from `position`: each direction
    /// vector is walked square by square until the board edge, an own
    /// piece (excluded) or an opponent piece (included, then stop).
    #[verifier::loop_isolation(false)]
    pub fn create_move_range(&self, position: Position, board: &Board) -> (r: Vec<LegalMove>)
        requires
            wf_board(board@),
            0 <= position.x < 9,
            0 <= position.y < 9,
        ensures
            r@ == spec_move_range(board@, *self, position),
    {
        let vectors = self.move_vec();
        proof {
            crate::piece::lemma_move_vec_bounds(self.piece_type, self.color);
        }
        let mut out: Vec<LegalMove> = Vec::new();
        proof {
            assert(vectors@.skip(0) =~= vectors@);
            assert(Seq::<LegalMove>::empty() + spec_vec_moves(board@, *self, position, vectors@)
                =~= spec_vec_moves(board@, *self, position, vectors@));
        }
        let mut vi: usize = 0;
        while vi < vectors.len()
            invariant
                vi <= vectors@.len(),
                spec_move_range(board@, *self, position) == out@ + spec_vec_moves(
                    board@,
                    *self,
                    position,
                    vectors@.skip(vi as int),
                ),
            decreases vectors@.len() - vi,
        {
            let ghost out0 = out@;
            let (vx, vy) = vectors[vi];
            let dx = calc_delta(vx);
            let dy = calc_delta(vy);
            let mut rem: u32 = if vx >= 9 || vx <= -9 || vy >= 9 || vy <= -9 {
                9
            } else {
                1
            };
            let ghost ray_full = spec_ray(
                board@,
                *self,
                position,
                position.x as int,
                position.y as int,
                dx as int,
                dy as int,
                rem as int,
            );
            let mut seg: Vec<LegalMove> = Vec::new();
            let mut cx = position.x;
            let mut cy = position.y;
            #[verifier::loop_isolation(true)]
            loop
                invariant_except_break
                    wf_board(board@),
                    -9 <= dx <= 9,
                    -9 <= dy <= 9,
                    0 <= cx < 9,
                    0 <= cy < 9,
                    ray_full == seg@ + spec_ray(
                        board@,
                        *self,
                        position,
                        cx as int,
                        cy as int,
                        dx as int,
                        dy as int,
                        rem as int,
                    ),
                ensures
                    seg@ == ray_full,
                decreases rem,
            {
                if rem == 0 {
                    break ;
                }
                let tx = cx + dx;
                let ty = cy + dy;
                if !(tx >= 0 && tx < 9 && ty >= 0 && ty < 9) {
                    break ;
                }
                let ghost seg0 = seg@;
                let sq = board[(ty as usize) * 9 + (tx as usize)];
                proof {
                    assert(sq == square_at(board@, tx as int, ty as int));
                }
                match sq {
                    None => {
                        push_square_moves(&mut seg, *self, position, tx, ty);
                        proof {
                            assert(seg@ + spec_ray(
                                board@,
                                *self,
                                position,
                                tx as int,
                                ty as int,
                                dx as int,
                                dy as int,
                                rem - 1,
                            ) =~= seg0 + spec_ray(
                                board@,
                                *self,
                                position,
                                cx as int,
                                cy as int,
                                dx as int,
                                dy as int,
                                rem as int,
                            ));
                        }
                        cx = tx;
                        cy = ty;
                        rem = rem - 1;
                    }
                    Some(q) => {
                        if q.color == self.color {
                            break ;
                        }
                        push_square_moves(&mut seg, *self, position, tx, ty);
                        break ;
                    }
                }
            }
            out.append(&mut seg);
            vi = vi + 1;
            proof {
                assert(vectors@.skip(vi - 1).drop_first() =~= vectors@.skip(vi as int));
                assert(out@ + spec_vec_moves(board@, *self, position, vectors@.skip(vi as int))
                    =~= out0 + spec_vec_moves(board@, *self, position, vectors@.skip(vi - 1)));
            }
        }
        proof {
            assert(vectors@.skip(vectors@.len() as int) =~= Seq::<(i32, i32)>::empty());
            assert(out@ =~= spec_move_range(board@, *self, position));
        }
        out
    }
}

/// Append one pool region's drop candidates to `out`.
#[verifier::loop_isolation(false)]
fn add_group_drops(out: &mut Vec<LegalMove>, boards: &Boards, pt: PieceType, turn: Color)
    requires
        wf_boards(boards@),
    ensures
        final(out)@ == old(out)@ + spec_group_drops(boards@, pt, turn),
{
    let ghost out0 = out@;
    let cells = fill_cells(pt, turn);
    proof {
        lemma_fill_cells_bounds(pt, turn);
    }
    let mut j: usize = 0;
    while j < cells.len()
        invariant
            j <= cells@.len(),
            out@ == out0,
            spec_first_occupied_from(boards@.pool, cells@, 0) == spec_first_occupied_from(
                boards@.pool,
                cells@,
                j as int,
            ),
        decreases cells@.len() - j,
    {
        let (cx, cy) = cells[j];
        let ci = (cy as usize) * 9 + (cx as usize);
        match boards.pool[ci] {
            Some(p) => {
                proof {
                    assert(spec_first_occupied_from(boards@.pool, cells@, j as int) == Some(
                        j as int,
                    ));
                }
                let mut rng = p.create_put_range(
                    Position::new(cx as i32, cy as i32, 1),
                    &boards.main,
                );
                out.append(&mut rng);
                return ;
            }
            None => {}
        }
        j = j + 1;
    }
    proof {
        assert(spec_first_occupied_from(boards@.pool, cells@, j as int) is None);
        assert(out@ =~= out0 + spec_group_drops(boards@, pt, turn));
    }
}

/// Every candidate move of side `turn`, unfiltered: board moves in scan
/// order, then one representative drop range per pool region.
#[verifier::loop_isolation(false)]
pub fn create_move_range(boards: &Boards, turn: Color) -> (r: Vec<LegalMove>)
    requires
        wf_boards(boards@),
    ensures
        r@ == spec_create_move_range(boards@, turn),
{
    let mut out: Vec<LegalMove> = Vec::new();
    proof {
        assert(Seq::<LegalMove>::empty() + spec_board_moves_from(boards@, turn, 0)
            =~= spec_board_moves_from(boards@, turn, 0));
    }
    let mut i: usize = 0;
    while i < 81
        invariant
            i <= 81,
            spec_board_moves_from(boards@, turn, 0) == out@ + spec_board_moves_from(
                boards@,
                turn,
                i as int,
            ),
        decreases 81 - i,
    {
        let ghost out0 = out@;
        match boards.main[i] {
            Some(p) => {
                if p.color == turn {
                    let mut rng = p.create_move_range(
                        Position::new((i % 9) as i32, (i / 9) as i32, 0),
                        &boards.main,
                    );
                    out.append(&mut rng);
                }
            }
            None => {}
        }
        i = i + 1;
        proof {
            let head = spec_board_moves_from(boards@, turn, i - 1);
            assert(out@ + spec_board_moves_from(boards@, turn, i as int) =~= out0 + head);
        }
    }
    add_group_drops(&mut out, boards, PieceType::Pawn, turn);
    add_group_drops(&mut out, boards, PieceType::Gold, turn);
    add_group_drops(&mut out, boards, PieceType::Silver, turn);
    add_group_drops(&mut out, boards, PieceType::Knight, turn);
    add_group_drops(&mut out, boards, PieceType::Lance, turn);
    add_group_drops(&mut out, boards, PieceType::Bishop, turn);
    add_group_drops(&mut out, boards, PieceType::Rook, turn);
    proof {
        assert(out@ =~= spec_create_move_range(boards@, turn));
    }
    out
}

/// If a concatenation contains an element, one of the parts does.
pub proof fn lemma_contains_concat<T>(a: Seq<T>, b: Seq<T>, x: T)
    requires
        (a + b).contains(x),
    ensures
        a.contains(x) || b.contains(x),
{
    let i = choose|i: int| 0 <= i < (a + b).len() && (a + b)[i] == x;
    if i < a.len() {
        assert(a[i] == x);
    } else {
        assert(b[i - a.len()] == x);
    }
}

proof fn lemma_square_moves_props(p: Piece, from: Position, tx: int, ty: int, m: LegalMove)
    requires
        spec_square_moves(p, from, tx, ty).contains(m),
        on_board(tx, ty),
    ensures
        m.from == from,
        m.to == (Position { x: tx as i32, y: ty as i32, z: 0 }),
        m.revolute ==> from.z != 1,
{
    let s = spec_square_moves(p, from, tx, ty);
    let i = choose|i: int| 0 <= i < s.len() && s[i] == m;
    assert(i == 0 || i == 1);
}

proof fn lemma_ray_props(
    b: Seq<Option<Piece>>,
    p: Piece,
    from: Position,
    cx: int,
    cy: int,
    dx: int,
    dy: int,
    rem: int,
    m: LegalMove,
)
    requires
        spec_ray(b, p, from, cx, cy, dx, dy, rem).contains(m),
    ensures
        m.from == from,
        m.to.z == 0,
        on_board(m.to.x as int, m.to.y as int),
        b[sq_idx(m.to.x as int, m.to.y as int)] is Some ==> b[sq_idx(
            m.to.x as int,
            m.to.y as int,
        )]->Some_0.color != p.color,
        m.revolute ==> from.z != 1,
    decreases rem,
{
    if rem <= 0 {
        assert(false);
    } else {
        let tx = cx + dx;
        let ty = cy + dy;
        if !on_board(tx, ty) {
            assert(false);
        } else {
            match square_at(b, tx, ty) {
                None => {
                    lemma_contains_concat(
                        spec_square_moves(p, from, tx, ty),
                        spec_ray(b, p, from, tx, ty, dx, dy, rem - 1),
                        m,
                    );
                    if spec_square_moves(p, from, tx, ty).contains(m) {
                        lemma_square_moves_props(p, from, tx, ty, m);
                    } else {
                        lemma_ray_props(b, p, from, tx, ty, dx, dy, rem - 1, m);
                    }
                }
                Some(q) => {
                    if q.color == p.color {
                        assert(false);
                    } else {
                        lemma_square_moves_props(p, from, tx, ty, m);
                    }
                }
            }
        }
    }
}

proof fn lemma_vec_moves_props(
    b: Seq<Option<Piece>>,
    p: Piece,
    from: Position,
    vs: Seq<(i32, i32)>,
    m: LegalMove,
)
    requires
        spec_vec_moves(b, p, from, vs).contains(m),
    ensures
        m.from == from,
        m.to.z == 0,
        on_board(m.to.x as int, m.to.y as int),
        b[sq_idx(m.to.x as int, m.to.y as int)] is Some ==> b[sq_idx(
            m.to.x as int,
            m.to.y as int,
        )]->Some_0.color != p.color,
        m.revolute ==> from.z != 1,
    decreases vs.len(),
{
    if vs.len() == 0 {
        assert(false);
    } else {
        let head = spec_ray(
            b,
            p,
            from,
            from.x as int,
            from.y as int,
            spec_delta(vs[0].0) as int,
            spec_delta(vs[0].1) as int,
            spec_steps(vs[0]),
        );
        lemma_contains_concat(head, spec_vec_moves(b, p, from, vs.drop_first()), m);
        if head.contains(m) {
            lemma_ray_props(
                b,
                p,
                from,
                from.x as int,
                from.y as int,
                spec_delta(vs[0].0) as int,
                spec_delta(vs[0].1) as int,
                spec_steps(vs[0]),
                m,
            );
        } else {
            lemma_vec_moves_props(b, p, from, vs.drop_first(), m);
        }
    }
}

/// Every move in a piece's range starts at the piece's square, lands on
/// the board, and never lands on a piece of its own side.
pub proof fn lemma_move_range_props(b: Seq<Option<Piece>>, p: Piece, from: Position, m: LegalMove)
    requires
        spec_move_range(b, p, from).contains(m),
    ensures
        m.from == from,
        m.to.z == 0,
        on_board(m.to.x as int, m.to.y as int),
        b[sq_idx(m.to.x as int, m.to.y as int)] is Some ==> b[sq_idx(
            m.to.x as int,
            m.to.y as int,
        )]->Some_0.color != p.color,
        m.revolute ==> from.z != 1,
{
    lemma_vec_moves_props(b, p, from, spec_move_vec(p.piece_type, p.color), m);
}

proof fn lemma_put_from_props(
    b: Seq<Option<Piece>>,
    p: Piece,
    from: Position,
    i: int,
    m: LegalMove,
)
    requires
        spec_put_from(b, p, from, i).contains(m),
        0 <= i,
    ensures
        m.from == from,
        m.to.z == 0,
        on_board(m.to.x as int, m.to.y as int),
        b[sq_idx(m.to.x as int, m.to.y as int)] is None,
        m.revolute == false,
        p.piece_type == PieceType::Pawn ==> !spec_nifu(b, m.to.x as int, p.color),
    decreases 81 - i,
{
    if i >= 81 {
        assert(false);
    } else {
        let head: Seq<LegalMove> = if b[i] is None && !(p.piece_type == PieceType::Pawn
            && spec_nifu(b, i % 9, p.color)) {
            seq![
                LegalMove {
                    from,
                    to: Position { x: (i % 9) as i32, y: (i / 9) as i32, z: 0 },
                    revolute: false,
                },
            ]
        } else {
            Seq::empty()
        };
        lemma_contains_concat(head, spec_put_from(b, p, from, i + 1), m);
        if head.contains(m) {
            assert(m == head[0]);
            assert(sq_idx(i % 9, i / 9) == i);
        } else {
            lemma_put_from_props(b, p, from, i + 1, m);
        }
    }
}

proof fn lemma_first_occupied_some(pool: Seq<Option<Piece>>, cells: Seq<(u8, u8)>, j0: int)
    ensures
        spec_first_occupied_from(pool, cells, j0) matches Some(j) ==> 0 <= j < cells.len()
            && pool[sq_idx(cells[j].0 as int, cells[j].1 as int)] is Some,
    decreases cells.len() - j0,
{
    if j0 < 0 || j0 >= cells.len() {
    } else if pool[sq_idx(cells[j0].0 as int, cells[j0].1 as int)] is Some {
    } else {
        lemma_first_occupied_some(pool, cells, j0 + 1);
    }
}

/// What generation guarantees of each candidate: its source square is
/// occupied (by the mover for board moves), its target is a board square
/// never holding the mover's own piece, drops land on empty squares, and
/// a pawn drop never lands on a file already holding that side's
/// unpromoted pawn.
pub open spec fn spec_gen_props(bs: BoardsV, turn: Color, m: LegalMove) -> bool {
    let fx = m.from.x as int;
    let fy = m.from.y as int;
    let tx = m.to.x as int;
    let ty = m.to.y as int;
    &&& m.to.z == 0
    &&& on_board(tx, ty)
    &&& on_board(fx, fy)
    &&& (m.from.z == 0 || m.from.z == 1)
    &&& (m.from.z == 0 ==> {
        let src = bs.main[sq_idx(fx, fy)];
        &&& src is Some
        &&& src->Some_0.color == turn
        &&& (bs.main[sq_idx(tx, ty)] is Some ==> bs.main[sq_idx(tx, ty)]->Some_0.color != turn)
        &&& spec_move_range(bs.main, src->Some_0, m.from).contains(m)
    })
    &&& (m.from.z == 1 ==> {
        let src = bs.pool[sq_idx(fx, fy)];
        &&& src is Some
        &&& bs.main[sq_idx(tx, ty)] is None
        &&& m.revolute == false
        &&& (src->Some_0.piece_type == PieceType::Pawn ==> !spec_nifu(
            bs.main,
            tx,
            src->Some_0.color,
        ))
        &&& exists|pt: PieceType| #[trigger] spec_fill_cells(pt, turn).contains(
            ((m.from.x as u8), (m.from.y as u8)),
        )
    })
}

proof fn lemma_board_moves_props(bs: BoardsV, turn: Color, i: int, m: LegalMove)
    requires
        wf_boards(bs),
        0 <= i,
        spec_board_moves_from(bs, turn, i).contains(m),
    ensures
        spec_gen_props(bs, turn, m),
    decreases 81 - i,
{
    if i >= 81 {
        assert(false);
    } else {
        let head: Seq<LegalMove> = match bs.main[i] {
            Some(p) => if p.color == turn {
                spec_move_range(
                    bs.main,
                    p,
                    Position { x: (i % 9) as i32, y: (i / 9) as i32, z: 0 },
                )
            } else {
                Seq::empty()
            },
            None => Seq::empty(),
        };
        lemma_contains_concat(head, spec_board_moves_from(bs, turn, i + 1), m);
        if head.contains(m) {
            let p = bs.main[i]->Some_0;
            let pos = Position { x: (i % 9) as i32, y: (i / 9) as i32, z: 0 };
            lemma_move_range_props(bs.main, p, pos, m);
            assert(sq_idx(i % 9, i / 9) == i);
        } else {
            lemma_board_moves_props(bs, turn, i + 1, m);
        }
    }
}

proof fn lemma_group_drops_props(bs: BoardsV, pt: PieceType, turn: Color, m: LegalMove)
    requires
        wf_boards(bs),
        spec_group_drops(bs, pt, turn).contains(m),
    ensures
        spec_gen_props(bs, turn, m),
{
    let cells = spec_fill_cells(pt, turn);
    lemma_first_occupied_some(bs.pool, cells, 0);
    match spec_first_occupied_from(bs.pool, cells, 0) {
        None => {
            assert(false);
        }
        Some(j) => {
            lemma_fill_cells_bounds(pt, turn);
            let x = cells[j].0 as int;
            let y = cells[j].1 as int;
            let piece = bs.pool[sq_idx(x, y)]->Some_0;
            let from = Position { x: x as i32, y: y as i32, z: 1 };
            lemma_put_from_props(bs.main, piece, from, 0, m);
            assert(cells[j] == ((m.from.x as u8), (m.from.y as u8)));
            assert(spec_fill_cells(pt, turn).contains(((m.from.x as u8), (m.from.y as u8))));
        }
    }
}

/// Every generated candidate satisfies `spec_gen_props`.
pub proof fn lemma_gen_props(bs: BoardsV, turn: Color)
    requires
        wf_boards(bs),
    ensures
        forall|m: LegalMove| #[trigger] spec_create_move_range(bs, turn).contains(m)
            ==> spec_gen_props(bs, turn, m),
{
    let s0 = spec_board_moves_from(bs, turn, 0);
    let g1 = spec_group_drops(bs, PieceType::Pawn, turn);
    let g2 = spec_group_drops(bs, PieceType::Gold, turn);
    let g3 = spec_group_drops(bs, PieceType::Silver, turn);
    let g4 = spec_group_drops(bs, PieceType::Knight, turn);
    let g5 = spec_group_drops(bs, PieceType::Lance, turn);
    let g6 = spec_group_drops(bs, PieceType::Bishop, turn);
    let g7 = spec_group_drops(bs, PieceType::Rook, turn);
    assert forall|m: LegalMove| #[trigger] spec_create_move_range(bs, turn).contains(m)
        implies spec_gen_props(bs, turn, m) by {
        lemma_contains_concat(s0 + g1 + g2 + g3 + g4 + g5 + g6, g7, m);
        if g7.contains(m) {
            lemma_group_drops_props(bs, PieceType::Rook, turn, m);
        } else {
            lemma_contains_concat(s0 + g1 + g2 + g3 + g4 + g5, g6, m);
            if g6.contains(m) {
                lemma_group_drops_props(bs, PieceType::Bishop, turn, m);
            } else {
                lemma_contains_concat(s0 + g1 + g2 + g3 + g4, g5, m);
                if g5.contains(m) {
                    lemma_group_drops_props(bs, PieceType::Lance, turn, m);
                } else {
                    lemma_contains_concat(s0 + g1 + g2 + g3, g4, m);
                    if g4.contains(m) {
                        lemma_group_drops_props(bs, PieceType::Knight, turn, m);
                    } else {
                        lemma_contains_concat(s0 + g1 + g2, g3, m);
                        if g3.contains(m) {
                            lemma_group_drops_props(bs, PieceType::Silver, turn, m);
                        } else {
                            lemma_contains_concat(s0 + g1, g2, m);
                            if g2.contains(m) {
                                lemma_group_drops_props(bs, PieceType::Gold, turn, m);
                            } else {
                                lemma_contains_concat(s0, g1, m);
                                if g1.contains(m) {
                                    lemma_group_drops_props(bs, PieceType::Pawn, turn, m);
                                } else {
                                    lemma_board_moves_props(bs, turn, 0, m);
                                }
                            }
                        }
                    }
                }
            }
        }
    }
}

} // verus!
