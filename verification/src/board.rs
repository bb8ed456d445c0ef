//! The position model: squares, moves, the 9x9 playing board, the
//! captured-piece pool laid out as a second 9x9 grid, the standard opening
//! layout, and the pure application of a move to a position.

use vstd::prelude::*;

use crate::piece::{
    spec_opponent, spec_revolute, spec_revolute_back, Color, Piece, PieceType,
};

verus! {

/// Side length of the playing board.
pub const BOARD_SIZE: usize = 9;

/// Number of tiers in a full position: the board and the pool.
pub const PAGE_SIZE: usize = 2;

/// A coordinate: `x` is the column, `y` the row, and `z` the tier
/// (0 the playing board, 1 the captured-piece pool).
#[derive(Clone, Copy, Debug, PartialEq, Eq, Structural)]
pub struct Position {
    pub x: i32,
    pub y: i32,
    pub z: i32,
}

impl Position {
    /// Whether this coordinate names a square of the playing board.
    pub open spec fn spec_is_valid(self) -> bool {
        0 <= self.x < 9 && 0 <= self.y < 9 && self.z == 0
    }

    pub fn new(x: i32, y: i32, z: i32) -> (r: Position)
        ensures
            r == (Position { x, y, z }),
    {
        Position { x, y, z }
    }

    /// Whether this coordinate names a square of the playing board.
    pub fn is_valid(&self) -> (r: bool)
        ensures
            r == self.spec_is_valid(),
    {
        self.x >= 0 && self.x < 9 && self.y >= 0 && self.y < 9 && self.z == 0
    }
}

/// A candidate move: from a square (or a pool slot, `from.z == 1`) to a
/// board square, optionally promoting on arrival.
#[derive(Clone, Copy, Debug, PartialEq, Eq, Structural)]
pub struct LegalMove {
    pub from: Position,
    pub to: Position,
    pub revolute: bool,
}

/// Whether the move crosses `turn`'s promotion zone (the three far
/// ranks); a drop from the pool never qualifies.
pub open spec fn spec_move_can_revolte(m: LegalMove, turn: Color) -> bool {
    if m.from.z == 1 {
        false
    } else {
        match turn {
            Color::Black => m.from.y >= 6 || m.to.y >= 6,
            Color::White => m.from.y <= 2 || m.to.y <= 2,
        }
    }
}

impl LegalMove {
    /// Whether this move crosses `turn`'s promotion zone.
    pub fn can_revolte(&self, turn: Color) -> (r: bool)
        ensures
            r == spec_move_can_revolte(*self, turn),
    {
        if self.from.z == 1 {
            return false;
        }
        match turn {
            Color::Black => self.from.y >= 6 || self.to.y >= 6,
            Color::White => self.from.y <= 2 || self.to.y <= 2,
        }
    }
}

/// One 9x9 grid of optional pieces, stored row-major: square `(x, y)`
/// lives at index `y * 9 + x`.
pub type Board = Vec<Option<Piece>>;

/// A full position: the playing board and the captured-piece pool.
pub struct Boards {
    pub main: Board,
    pub pool: Board,
}

/// The mathematical model of a full position.
#[verifier::ext_equal]
pub struct BoardsV {
    pub main: Seq<Option<Piece>>,
    pub pool: Seq<Option<Piece>>,
}

impl View for Boards {
    type V = BoardsV;

    open spec fn view(&self) -> BoardsV {
        BoardsV { main: self.main@, pool: self.pool@ }
    }
}

/// The flat index of square `(x, y)`.
pub open spec fn sq_idx(x: int, y: int) -> int {
    y * 9 + x
}

/// Whether `(x, y)` lies on a 9x9 grid.
pub open spec fn on_board(x: int, y: int) -> bool {
    0 <= x < 9 && 0 <= y < 9
}

/// The content of square `(x, y)`.
pub open spec fn square_at(b: Seq<Option<Piece>>, x: int, y: int) -> Option<Piece> {
    b[sq_idx(x, y)]
}

/// A well-formed grid has exactly 81 cells.
pub open spec fn wf_board(b: Seq<Option<Piece>>) -> bool {
    b.len() == 81
}

/// Both tiers of a position are well-formed grids.
pub open spec fn wf_boards(bs: BoardsV) -> bool {
    wf_board(bs.main) && wf_board(bs.pool)
}

/// The tier a move coordinate refers to: tier 1 is the pool, anything
/// else the playing board.
pub open spec fn tier_sel(bs: BoardsV, z: int) -> Seq<Option<Piece>> {
    if z == 1 {
        bs.pool
    } else {
        bs.main
    }
}

/// An empty 9x9 grid.
fn empty_board() -> (r: Board)
    ensures
        r@.len() == 81,
        forall|i: int| 0 <= i < 81 ==> r@[i] is None,
{
    let mut v: Vec<Option<Piece>> = Vec::new();
    let mut i: usize = 0;
    while i < 81
        invariant
            i <= 81,
            v@.len() == i,
            forall|j: int| 0 <= j < i ==> v@[j] is None,
        decreases 81 - i,
    {
        v.push(None);
        i = i + 1;
    }
    v
}

/// A fresh copy of a grid.
pub fn copy_board(b: &Board) -> (r: Board)
    ensures
        r@ == b@,
{
    let mut v: Vec<Option<Piece>> = Vec::new();
    let mut i: usize = 0;
    while i < b.len()
        invariant
            i <= b@.len(),
            v@.len() == i,
            forall|j: int| 0 <= j < i ==> v@[j] == b@[j],
        decreases b@.len() - i,
    {
        v.push(b[i]);
        i = i + 1;
    }
    proof {
        assert(v@ =~= b@);
    }
    v
}

/// A fresh copy of a full position.
pub fn copy_boards(bs: &Boards) -> (r: Boards)
    ensures
        r@ == bs@,
{
    Boards { main: copy_board(&bs.main), pool: copy_board(&bs.pool) }
}

/// Whether two optional squares hold the same content.
pub fn option_piece_eq(a: Option<Piece>, b: Option<Piece>) -> (r: bool)
    ensures
        r == (a == b),
{
    match (a, b) {
        (None, None) => true,
        (Some(p), Some(q)) => p == q,
        _ => false,
    }
}

/// Whether two positions are identical, square by square on both tiers.
pub fn boards_eq(a: &Boards, b: &Boards) -> (r: bool)
    ensures
        r == (a@ == b@),
{
    if a.main.len() != b.main.len() || a.pool.len() != b.pool.len() {
        return false;
    }
    let mut i: usize = 0;
    while i < a.main.len()
        invariant
            i <= a@.main.len(),
            a@.main.len() == b@.main.len(),
            forall|j: int| 0 <= j < i ==> a@.main[j] == b@.main[j],
        decreases a@.main.len() - i,
    {
        if !option_piece_eq(a.main[i], b.main[i]) {
            return false;
        }
        i = i + 1;
    }
    let mut k: usize = 0;
    while k < a.pool.len()
        invariant
            k <= a@.pool.len(),
            a@.pool.len() == b@.pool.len(),
            forall|j: int| 0 <= j < k ==> a@.pool[j] == b@.pool[j],
        decreases a@.pool.len() - k,
    {
        if !option_piece_eq(a.pool[k], b.pool[k]) {
            return false;
        }
        k = k + 1;
    }
    proof {
        assert(a@.main =~= b@.main);
        assert(a@.pool =~= b@.pool);
    }
    true
}

/// The opening occupant of square `(x, y)` of the playing board.
pub open spec fn spec_initial_square(x: int, y: int) -> Option<Piece> {
    if y == 0 {
        if x == 4 {
            Some(Piece { piece_type: PieceType::King, color: Color::Black })
        } else if x == 3 || x == 5 {
            Some(Piece { piece_type: PieceType::Gold, color: Color::Black })
        } else if x == 2 || x == 6 {
            Some(Piece { piece_type: PieceType::Silver, color: Color::Black })
        } else if x == 1 || x == 7 {
            Some(Piece { piece_type: PieceType::Knight, color: Color::Black })
        } else {
            Some(Piece { piece_type: PieceType::Lance, color: Color::Black })
        }
    } else if y == 1 {
        if x == 1 {
            Some(Piece { piece_type: PieceType::Rook, color: Color::Black })
        } else if x == 7 {
            Some(Piece { piece_type: PieceType::Bishop, color: Color::Black })
        } else {
            None
        }
    } else if y == 2 {
        Some(Piece { piece_type: PieceType::Pawn, color: Color::Black })
    } else if y == 6 {
        Some(Piece { piece_type: PieceType::Pawn, color: Color::White })
    } else if y == 7 {
        if x == 7 {
            Some(Piece { piece_type: PieceType::Rook, color: Color::White })
        } else if x == 1 {
            Some(Piece { piece_type: PieceType::Bishop, color: Color::White })
        } else {
            None
        }
    } else if y == 8 {
        if x == 4 {
            Some(Piece { piece_type: PieceType::King, color: Color::White })
        } else if x == 3 || x == 5 {
            Some(Piece { piece_type: PieceType::Gold, color: Color::White })
        } else if x == 2 || x == 6 {
            Some(Piece { piece_type: PieceType::Silver, color: Color::White })
        } else if x == 1 || x == 7 {
            Some(Piece { piece_type: PieceType::Knight, color: Color::White })
        } else {
            Some(Piece { piece_type: PieceType::Lance, color: Color::White })
        }
    } else {
        None
    }
}

/// The opening playing board.
pub open spec fn spec_initial_main() -> Seq<Option<Piece>> {
    Seq::new(81, |i: int| spec_initial_square(i % 9, i / 9))
}

/// The opening position: standard layout on the board, empty pool.
pub open spec fn spec_initial_boards() -> BoardsV {
    BoardsV { main: spec_initial_main(), pool: Seq::new(81, |i: int| None) }
}

/// The opening occupant of square `(x, y)`.
fn initial_square(x: usize, y: usize) -> (r: Option<Piece>)
    requires
        x < 9,
        y < 9,
    ensures
        r == spec_initial_square(x as int, y as int),
{
    if y == 0 || y == 8 {
        let color = if y == 0 {
            Color::Black
        } else {
            Color::White
        };
        if x == 4 {
            Some(Piece::new(PieceType::King, color))
        } else if x == 3 || x == 5 {
            Some(Piece::new(PieceType::Gold, color))
        } else if x == 2 || x == 6 {
            Some(Piece::new(PieceType::Silver, color))
        } else if x == 1 || x == 7 {
            Some(Piece::new(PieceType::Knight, color))
        } else {
            Some(Piece::new(PieceType::Lance, color))
        }
    } else if y == 1 {
        if x == 1 {
            Some(Piece::new(PieceType::Rook, Color::Black))
        } else if x == 7 {
            Some(Piece::new(PieceType::Bishop, Color::Black))
        } else {
            None
        }
    } else if y == 2 {
        Some(Piece::new(PieceType::Pawn, Color::Black))
    } else if y == 6 {
        Some(Piece::new(PieceType::Pawn, Color::White))
    } else if y == 7 {
        if x == 7 {
            Some(Piece::new(PieceType::Rook, Color::White))
        } else if x == 1 {
            Some(Piece::new(PieceType::Bishop, Color::White))
        } else {
            None
        }
    } else {
        None
    }
}

/// The standard opening position.
pub fn create_initial_board() -> (r: Boards)
    ensures
        r@ == spec_initial_boards(),
        wf_boards(r@),
{
    let mut main: Vec<Option<Piece>> = Vec::new();
    let mut i: usize = 0;
    while i < 81
        invariant
            i <= 81,
            main@.len() == i,
            forall|j: int| 0 <= j < i ==> main@[j] == spec_initial_main()[j],
        decreases 81 - i,
    {
        let s = initial_square(i % 9, i / 9);
        main.push(s);
        i = i + 1;
    }
    let pool = empty_board();
    let r = Boards { main, pool };
    proof {
        assert(r@.main =~= spec_initial_main());
        assert(r@.pool =~= spec_initial_boards().pool);
    }
    r
}

/// The pool slots of a piece kind for a side, in the order captures fill
/// them.  Black fills its regions in ascending index order, White in
/// descending order, so both engines reach bit-identical pools for the
/// same capture sequence.  Kinds that never sit in the pool have no slots.
pub open spec fn spec_fill_cells(pt: PieceType, c: Color) -> Seq<(u8, u8)> {
    match (pt, c) {
        (PieceType::Pawn, Color::Black) => Seq::new(
            18,
            |i: int|
                if i < 9 {
                    (i as u8, 0u8)
                } else {
                    ((i - 9) as u8, 1u8)
                },
        ),
        (PieceType::Pawn, Color::White) => Seq::new(
            18,
            |i: int|
                if i < 9 {
                    ((8 - i) as u8, 8u8)
                } else {
                    ((17 - i) as u8, 7u8)
                },
        ),
        (PieceType::Gold, Color::Black) => Seq::new(4, |i: int| (i as u8, 2u8)),
        (PieceType::Gold, Color::White) => Seq::new(4, |i: int| ((8 - i) as u8, 6u8)),
        (PieceType::Silver, Color::Black) => Seq::new(4, |i: int| ((4 + i) as u8, 2u8)),
        (PieceType::Silver, Color::White) => Seq::new(4, |i: int| ((4 - i) as u8, 6u8)),
        (PieceType::Knight, Color::Black) => Seq::new(4, |i: int| (i as u8, 3u8)),
        (PieceType::Knight, Color::White) => Seq::new(4, |i: int| ((8 - i) as u8, 5u8)),
        (PieceType::Lance, Color::Black) => Seq::new(4, |i: int| ((4 + i) as u8, 3u8)),
        (PieceType::Lance, Color::White) => Seq::new(4, |i: int| ((4 - i) as u8, 5u8)),
        (PieceType::Bishop, Color::Black) => Seq::new(2, |i: int| (i as u8, 4u8)),
        (PieceType::Bishop, Color::White) => Seq::new(2, |i: int| ((8 - i) as u8, 4u8)),
        (PieceType::Rook, Color::Black) => Seq::new(2, |i: int| ((2 + i) as u8, 4u8)),
        (PieceType::Rook, Color::White) => Seq::new(2, |i: int| ((6 - i) as u8, 4u8)),
        _ => seq![],
    }
}

/// Every pool slot coordinate lies on the 9x9 pool grid.
pub proof fn lemma_fill_cells_bounds(pt: PieceType, c: Color)
    ensures
        forall|j: int|
            0 <= j < spec_fill_cells(pt, c).len() ==> {
                let cell = #[trigger] spec_fill_cells(pt, c)[j];
                cell.0 < 9 && cell.1 < 9
            },
{
}

/// The pool slots of a piece kind for a side, in fill order.
pub fn fill_cells(pt: PieceType, c: Color) -> (r: Vec<(u8, u8)>)
    ensures
        r@ == spec_fill_cells(pt, c),
{
    let mut v: Vec<(u8, u8)> = Vec::new();
    match (pt, c) {
        (PieceType::Pawn, Color::Black) => {
            let mut x: u8 = 0;
            while x < 9
                invariant
                    x <= 9,
                    v@.len() == x,
                    forall|j: int| 0 <= j < x ==> v@[j] == (j as u8, 0u8),
                decreases 9 - x,
            {
                v.push((x, 0));
                x = x + 1;
            }
            let mut x2: u8 = 0;
            while x2 < 9
                invariant
                    x2 <= 9,
                    v@.len() == 9 + x2,
                    forall|j: int| 0 <= j < 9 ==> v@[j] == (j as u8, 0u8),
                    forall|j: int| 9 <= j < 9 + x2 ==> v@[j] == ((j - 9) as u8, 1u8),
                decreases 9 - x2,
            {
                v.push((x2, 1));
                x2 = x2 + 1;
            }
        }
        (PieceType::Pawn, Color::White) => {
            let mut x: u8 = 0;
            while x < 9
                invariant
                    x <= 9,
                    v@.len() == x,
                    forall|j: int| 0 <= j < x ==> v@[j] == ((8 - j) as u8, 8u8),
                decreases 9 - x,
            {
                v.push((8 - x, 8));
                x = x + 1;
            }
            let mut x2: u8 = 0;
            while x2 < 9
                invariant
                    x2 <= 9,
                    v@.len() == 9 + x2,
                    forall|j: int| 0 <= j < 9 ==> v@[j] == ((8 - j) as u8, 8u8),
                    forall|j: int| 9 <= j < 9 + x2 ==> v@[j] == ((17 - j) as u8, 7u8),
                decreases 9 - x2,
            {
                v.push((8 - x2, 7));
                x2 = x2 + 1;
            }
        }
        (PieceType::Gold, Color::Black) => {
            v.push((0, 2));
            v.push((1, 2));
            v.push((2, 2));
            v.push((3, 2));
        }
        (PieceType::Gold, Color::White) => {
            v.push((8, 6));
            v.push((7, 6));
            v.push((6, 6));
            v.push((5, 6));
        }
        (PieceType::Silver, Color::Black) => {
            v.push((4, 2));
            v.push((5, 2));
            v.push((6, 2));
            v.push((7, 2));
        }
        (PieceType::Silver, Color::White) => {
            v.push((4, 6));
            v.push((3, 6));
            v.push((2, 6));
            v.push((1, 6));
        }
        (PieceType::Knight, Color::Black) => {
            v.push((0, 3));
            v.push((1, 3));
            v.push((2, 3));
            v.push((3, 3));
        }
        (PieceType::Knight, Color::White) => {
            v.push((8, 5));
            v.push((7, 5));
            v.push((6, 5));
            v.push((5, 5));
        }
        (PieceType::Lance, Color::Black) => {
            v.push((4, 3));
            v.push((5, 3));
            v.push((6, 3));
            v.push((7, 3));
        }
        (PieceType::Lance, Color::White) => {
            v.push((4, 5));
            v.push((3, 5));
            v.push((2, 5));
            v.push((1, 5));
        }
        (PieceType::Bishop, Color::Black) => {
            v.push((0, 4));
            v.push((1, 4));
        }
        (PieceType::Bishop, Color::White) => {
            v.push((8, 4));
            v.push((7, 4));
        }
        (PieceType::Rook, Color::Black) => {
            v.push((2, 4));
            v.push((3, 4));
        }
        (PieceType::Rook, Color::White) => {
            v.push((6, 4));
            v.push((5, 4));
        }
        _ => {}
    }
    proof {
        assert(v@ =~= spec_fill_cells(pt, c));
    }
    v
}

/// The one region a pool slot belongs to, as (kind, side).  The pool's
/// fourteen regions are pairwise disjoint; the two slots outside every
/// region are mapped to the king, which has no region.
pub open spec fn spec_slot_owner(x: int, y: int) -> (PieceType, Color) {
    if y <= 1 {
        (PieceType::Pawn, Color::Black)
    } else if y == 2 {
        if x < 4 {
            (PieceType::Gold, Color::Black)
        } else {
            (PieceType::Silver, Color::Black)
        }
    } else if y == 3 {
        if x < 4 {
            (PieceType::Knight, Color::Black)
        } else {
            (PieceType::Lance, Color::Black)
        }
    } else if y == 4 {
        if x < 2 {
            (PieceType::Bishop, Color::Black)
        } else if x < 4 {
            (PieceType::Rook, Color::Black)
        } else if x >= 7 {
            (PieceType::Bishop, Color::White)
        } else if x >= 5 {
            (PieceType::Rook, Color::White)
        } else {
            (PieceType::King, Color::Black)
        }
    } else if y == 5 {
        if x >= 5 {
            (PieceType::Knight, Color::White)
        } else {
            (PieceType::Lance, Color::White)
        }
    } else if y == 6 {
        if x >= 5 {
            (PieceType::Gold, Color::White)
        } else {
            (PieceType::Silver, Color::White)
        }
    } else {
        (PieceType::Pawn, Color::White)
    }
}

/// Every slot of a region is owned by that region's (kind, side), so
/// two regions never share a slot.
pub proof fn lemma_fill_cells_owner(pt: PieceType, c: Color)
    ensures
        forall|j: int|
            0 <= j < spec_fill_cells(pt, c).len() ==> {
                let cell = #[trigger] spec_fill_cells(pt, c)[j];
                spec_slot_owner(cell.0 as int, cell.1 as int) == (pt, c)
            },
{
}

/// A sound pool: every piece sits inside its own kind-and-side region,
/// so no side holds the other's pieces and no king or promoted form
/// ever sits in the pool.
pub open spec fn spec_pool_ok(pool: Seq<Option<Piece>>) -> bool {
    forall|x: int, y: int|
        on_board(x, y) ==> (#[trigger] square_at(pool, x, y) matches Some(q)
            ==> spec_fill_cells(q.piece_type, q.color).contains(((x as u8), (y as u8))))
}

/// Whether a slot list holds the coordinate `(x, y)`.
fn cells_contain(cells: &Vec<(u8, u8)>, x: u8, y: u8) -> (r: bool)
    ensures
        r == cells@.contains((x, y)),
{
    let mut j: usize = 0;
    while j < cells.len()
        invariant
            j <= cells@.len(),
            forall|jj: int| 0 <= jj < j ==> cells@[jj] != (x, y),
        decreases cells@.len() - j,
    {
        let (cx, cy) = cells[j];
        if cx == x && cy == y {
            return true;
        }
        j = j + 1;
    }
    proof {
        if cells@.contains((x, y)) {
            let jj = choose|jj: int| 0 <= jj < cells@.len() && cells@[jj] == (x, y);
            assert(false);
        }
    }
    false
}

/// Whether every occupied pool slot lies in its own piece's region.
#[verifier::loop_isolation(false)]
pub fn pool_ok(pool: &Board) -> (r: bool)
    requires
        wf_board(pool@),
    ensures
        r == spec_pool_ok(pool@),
{
    let mut i: usize = 0;
    while i < 81
        invariant
            i <= 81,
            forall|x: int, y: int|
                on_board(x, y) && sq_idx(x, y) < i ==> (#[trigger] square_at(pool@, x, y)
                    matches Some(q) ==> spec_fill_cells(q.piece_type, q.color).contains(
                    ((x as u8), (y as u8)),
                )),
        decreases 81 - i,
    {
        match pool[i] {
            Some(q) => {
                let cells = fill_cells(q.piece_type, q.color);
                let x = (i % 9) as u8;
                let y = (i / 9) as u8;
                if !cells_contain(&cells, x, y) {
                    proof {
                        assert(square_at(pool@, x as int, y as int) == pool@[i as int]);
                    }
                    return false;
                }
            }
            None => {}
        }
        i = i + 1;
        proof {
            assert forall|x: int, y: int| on_board(x, y) && sq_idx(x, y) < i implies (
            #[trigger] square_at(pool@, x, y) matches Some(q)
                ==> spec_fill_cells(q.piece_type, q.color).contains(
                ((x as u8), (y as u8)),
            )) by {
                if sq_idx(x, y) == i - 1 {
                    assert(square_at(pool@, x, y) == pool@[i - 1]);
                }
            }
        }
    }
    proof {
        if !spec_pool_ok(pool@) {
            let (x, y) = choose|x: int, y: int|
                on_board(x, y) && !(#[trigger] square_at(pool@, x, y) matches Some(q)
                    ==> spec_fill_cells(q.piece_type, q.color).contains(((x as u8), (y as u8))));
            assert(sq_idx(x, y) < 81);
            assert(false);
        }
    }
    true
}

/// The first empty pool slot at or after `i` in fill order.
pub open spec fn spec_first_empty(
    pool: Seq<Option<Piece>>,
    cells: Seq<(u8, u8)>,
    i: int,
) -> Option<int>
    decreases cells.len() - i,
{
    if i < 0 || i >= cells.len() {
        None
    } else if pool[sq_idx(cells[i].0 as int, cells[i].1 as int)] is None {
        Some(i)
    } else {
        spec_first_empty(pool, cells, i + 1)
    }
}

/// The pool after receiving a captured piece: the piece lands in the
/// first empty slot of its kind's region in fill order, or nowhere if
/// the kind has no region or the region is full.
pub open spec fn spec_pool_insert(pool: Seq<Option<Piece>>, p: Piece) -> Seq<Option<Piece>> {
    let cells = spec_fill_cells(p.piece_type, p.color);
    match spec_first_empty(pool, cells, 0) {
        None => pool,
        Some(j) => pool.update(sq_idx(cells[j].0 as int, cells[j].1 as int), Some(p)),
    }
}

/// Place a captured piece into the pool.
fn pool_insert(pool: &Board, p: Piece) -> (r: Board)
    requires
        wf_board(pool@),
    ensures
        r@ == spec_pool_insert(pool@, p),
        wf_board(r@),
{
    let mut out = copy_board(pool);
    let cells = fill_cells(p.piece_type, p.color);
    proof {
        lemma_fill_cells_bounds(p.piece_type, p.color);
    }
    let mut i: usize = 0;
    while i < cells.len()
        invariant
            wf_board(out@),
            out@ == pool@,
            i <= cells@.len(),
            cells@ == spec_fill_cells(p.piece_type, p.color),
            forall|j: int|
                0 <= j < spec_fill_cells(p.piece_type, p.color).len() ==> {
                    let cell = #[trigger] spec_fill_cells(p.piece_type, p.color)[j];
                    cell.0 < 9 && cell.1 < 9
                },
            spec_first_empty(pool@, cells@, 0) == spec_first_empty(pool@, cells@, i as int),
        decreases cells@.len() - i,
    {
        let (cx, cy) = cells[i];
        let ci = (cy as usize) * 9 + (cx as usize);
        if out[ci].is_none() {
            out.set(ci, Some(p));
            proof {
                assert(spec_first_empty(pool@, cells@, i as int) == Some(i as int));
                assert(out@ == spec_pool_insert(pool@, p));
            }
            return out;
        }
        i = i + 1;
    }
    proof {
        assert(spec_first_empty(pool@, cells@, i as int) is None);
    }
    out
}

/// The position after a move: the moving piece (promoted if asked)
/// lands on the target square, its source square empties, and a captured
/// piece changes side, reverts to its base form, and joins the capturer's
/// pool region.  A captured king simply vanishes.
pub open spec fn spec_move_piece(bs: BoardsV, m: LegalMove) -> BoardsV {
    let fi = sq_idx(m.from.x as int, m.from.y as int);
    let ti = sq_idx(m.to.x as int, m.to.y as int);
    let src = tier_sel(bs, m.from.z as int)[fi];
    let moved = if m.revolute {
        Some(spec_revolute(src->Some_0))
    } else {
        src
    };
    let captured = bs.main[ti];
    let main1 = bs.main.update(ti, moved);
    let bs2 = if m.from.z == 1 {
        BoardsV { main: main1, pool: bs.pool.update(fi, None) }
    } else {
        BoardsV { main: main1.update(fi, None), pool: bs.pool }
    };
    match captured {
        None => bs2,
        Some(cp) => {
            let q = Piece {
                piece_type: spec_revolute_back(cp).piece_type,
                color: spec_opponent(cp.color),
            };
            BoardsV { main: bs2.main, pool: spec_pool_insert(bs2.pool, q) }
        }
    }
}

/// Apply a move to a position, returning the resulting position and
/// leaving the input untouched.
pub fn move_piece(boards: &Boards, legal_move: &LegalMove) -> (r: Boards)
    requires
        wf_boards(boards@),
        legal_move.from.z == 0 || legal_move.from.z == 1,
        0 <= legal_move.from.x < 9,
        0 <= legal_move.from.y < 9,
        0 <= legal_move.to.x < 9,
        0 <= legal_move.to.y < 9,
        legal_move.revolute ==> tier_sel(boards@, legal_move.from.z as int)[sq_idx(
            legal_move.from.x as int,
            legal_move.from.y as int,
        )] is Some,
    ensures
        r@ == spec_move_piece(boards@, *legal_move),
        wf_boards(r@),
{
    let mut main = copy_board(&boards.main);
    let mut pool = copy_board(&boards.pool);
    let fi = (legal_move.from.y as usize) * 9 + (legal_move.from.x as usize);
    let ti = (legal_move.to.y as usize) * 9 + (legal_move.to.x as usize);
    let src = if legal_move.from.z == 1 {
        pool[fi]
    } else {
        main[fi]
    };
    let captured = main[ti];
    let moved = if legal_move.revolute {
        Some(src.unwrap().revolute())
    } else {
        src
    };
    main.set(ti, moved);
    if legal_move.from.z == 1 {
        pool.set(fi, None);
    } else {
        main.set(fi, None);
    }
    match captured {
        None => {}
        Some(cp) => {
            let base = cp.revolute_back();
            let q = Piece { piece_type: base.piece_type, color: cp.color.opponent() };
            pool = pool_insert(&pool, q);
        }
    }
    Boards { main, pool }
}

/// The number of occupied squares at or after flat index `i`.
pub open spec fn spec_count_from(b: Seq<Option<Piece>>, i: int) -> int
    decreases 81 - i,
{
    if i < 0 || i >= 81 {
        0
    } else {
        (if b[i] is Some {
            1int
        } else {
            0int
        }) + spec_count_from(b, i + 1)
    }
}

/// The number of pieces in a position, over both tiers.
pub open spec fn spec_piece_count(bs: BoardsV) -> int {
    spec_count_from(bs.main, 0) + spec_count_from(bs.pool, 0)
}

/// Count the occupied squares of one grid.
fn count_board(b: &Board) -> (r: usize)
    requires
        wf_board(b@),
    ensures
        r == spec_count_from(b@, 0),
        r <= 81,
{
    let mut count: usize = 0;
    let mut i: usize = 0;
    while i < 81
        invariant
            wf_board(b@),
            i <= 81,
            count <= i,
            spec_count_from(b@, 0) == count + spec_count_from(b@, i as int),
        decreases 81 - i,
    {
        if b[i].is_some() {
            count = count + 1;
        }
        i = i + 1;
    }
    count
}

/// The number of pieces in a position, over both tiers.
pub fn get_piece_count(boards: &Boards) -> (r: usize)
    requires
        wf_boards(boards@),
    ensures
        r == spec_piece_count(boards@),
{
    let m = count_board(&boards.main);
    let p = count_board(&boards.pool);
    m + p
}

/// Concatenate two vectors.
pub fn concat_vec<T>(v1: Vec<T>, v2: Vec<T>) -> (r: Vec<T>)
    ensures
        r@ == v1@ + v2@,
{
    let mut v = v1;
    let mut w = v2;
    v.append(&mut w);
    v
}

/// Applying a move is a pure function of the position: applying one
/// move to two equal positions (independent copies included) yields
/// equal results, and the input itself is never written to.
pub proof fn lemma_move_piece_pure(b1: BoardsV, b2: BoardsV, m: LegalMove)
    requires
        b1 == b2,
    ensures
        spec_move_piece(b1, m) == spec_move_piece(b2, m),
{
}

} // verus!
