//! The feature encoding consumed by an external evaluator: one indicator
//! channel per (piece kind, side, tier) combination, addressed by board
//! coordinate, plus the flat byte serialization of a game's history.

use vstd::prelude::*;

use crate::board::{sq_idx, square_at, wf_boards, Boards, BoardsV};
use crate::piece::{spec_piece_ord, Color, Piece};

verus! {

/// The channel of a piece on tier `z`: piece kinds fill 0..14, White
/// shifts by 14, the pool tier by 28, so distinct (kind, side, tier)
/// triples get distinct channels in 0..56.
pub open spec fn spec_channel(p: Piece, z: int) -> int {
    spec_piece_ord(p.piece_type) - 1 + (if p.color == Color::White {
        14int
    } else {
        0int
    }) + 28 * z
}

/// The pool tier's contribution to a channel value.
pub open spec fn spec_enc_pool(bs: BoardsV, x: int, y: int, c: int) -> u8 {
    match square_at(bs.pool, x, y) {
        Some(q) => if spec_channel(q, 1) == c {
            1u8
        } else {
            0u8
        },
        None => 0u8,
    }
}

/// The encoded value at coordinate `(x, y)` and channel `c`: 1 exactly
/// when the channel's (kind, side, tier) occupies that square.
pub open spec fn spec_enc_at(bs: BoardsV, x: int, y: int, c: int) -> u8 {
    match square_at(bs.main, x, y) {
        Some(p) => if spec_channel(p, 0) == c {
            1u8
        } else {
            spec_enc_pool(bs, x, y, c)
        },
        None => spec_enc_pool(bs, x, y, c),
    }
}

/// A piece kind's rank lies in 1..=14.
proof fn lemma_ord_bounds(p: Piece)
    ensures
        1 <= spec_piece_ord(p.piece_type) <= 14,
{
}

/// The channel of a piece.
fn channel_of(p: &Piece, z: usize) -> (r: usize)
    requires
        z <= 1,
    ensures
        r == spec_channel(*p, z as int),
        r < 56,
{
    let ord = p.piece_ord() as usize;
    let off: usize = if p.color == Color::White {
        14
    } else {
        0
    };
    ord - 1 + off + 28 * z
}

/// The encoded value of one coordinate and channel.
fn enc_cell(boards: &Boards, x: usize, y: usize, c: usize) -> (r: u8)
    requires
        wf_boards(boards@),
        x < 9,
        y < 9,
    ensures
        r == spec_enc_at(boards@, x as int, y as int, c as int),
{
    let i = y * 9 + x;
    match boards.main[i] {
        Some(p) => {
            if channel_of(&p, 0) == c {
                return 1;
            }
        }
        None => {}
    }
    match boards.pool[i] {
        Some(q) => {
            if channel_of(&q, 1) == c {
                proof {
                    assert(square_at(boards@.pool, x as int, y as int) == boards@.pool[i as int]);
                }
                return 1;
            }
        }
        None => {}
    }
    0
}

/// The position as a 9 x 9 x 56 indicator array, indexed column first.
#[verifier::loop_isolation(false)]
pub fn get_num_array(boards: &Boards) -> (r: Vec<Vec<Vec<u8>>>)
    requires
        wf_boards(boards@),
    ensures
        r@.len() == 9,
        forall|x: int| 0 <= x < 9 ==> (#[trigger] r@[x])@.len() == 9,
        forall|x: int, y: int|
            0 <= x < 9 && 0 <= y < 9 ==> (#[trigger] r@[x]@[y])@.len() == 56,
        forall|x: int, y: int, c: int|
            0 <= x < 9 && 0 <= y < 9 && 0 <= c < 56 ==> (#[trigger] r@[x]@[y]@[c]) == spec_enc_at(
                boards@,
                x,
                y,
                c,
            ),
{
    let mut r: Vec<Vec<Vec<u8>>> = Vec::new();
    let mut x: usize = 0;
    while x < 9
        invariant
            x <= 9,
            r@.len() == x,
            forall|xi: int| 0 <= xi < x ==> (#[trigger] r@[xi])@.len() == 9,
            forall|xi: int, y: int|
                0 <= xi < x && 0 <= y < 9 ==> (#[trigger] r@[xi]@[y])@.len() == 56,
            forall|xi: int, y: int, c: int|
                0 <= xi < x && 0 <= y < 9 && 0 <= c < 56 ==> (#[trigger] r@[xi]@[y]@[c])
                    == spec_enc_at(boards@, xi, y, c),
        decreases 9 - x,
    {
        let mut plane: Vec<Vec<u8>> = Vec::new();
        let mut y: usize = 0;
        while y < 9
            invariant
                y <= 9,
                plane@.len() == y,
                forall|yi: int| 0 <= yi < y ==> (#[trigger] plane@[yi])@.len() == 56,
                forall|yi: int, c: int|
                    0 <= yi < y && 0 <= c < 56 ==> (#[trigger] plane@[yi]@[c]) == spec_enc_at(
                        boards@,
                        x as int,
                        yi,
                        c,
                    ),
            decreases 9 - y,
        {
            let mut chans: Vec<u8> = Vec::new();
            let mut c: usize = 0;
            while c < 56
                invariant
                    c <= 56,
                    chans@.len() == c,
                    forall|ci: int|
                        0 <= ci < c ==> (#[trigger] chans@[ci]) == spec_enc_at(
                            boards@,
                            x as int,
                            y as int,
                            ci,
                        ),
                decreases 56 - c,
            {
                chans.push(enc_cell(boards, x, y, c));
                c = c + 1;
            }
            plane.push(chans);
            y = y + 1;
        }
        r.push(plane);
        x = x + 1;
    }
    r
}

/// Encoding is a pure function of the position: the same position
/// always encodes identically.
pub proof fn lemma_encode_deterministic(b1: BoardsV, b2: BoardsV, x: int, y: int, c: int)
    requires
        b1 == b2,
    ensures
        spec_enc_at(b1, x, y, c) == spec_enc_at(b2, x, y, c),
{
}

/// Distinct (kind, side, tier) triples have distinct channels.
proof fn lemma_channel_inj(p: Piece, z1: int, q: Piece, z2: int)
    requires
        0 <= z1 <= 1,
        0 <= z2 <= 1,
        spec_channel(p, z1) == spec_channel(q, z2),
    ensures
        p == q && z1 == z2,
{
    lemma_ord_bounds(p);
    lemma_ord_bounds(q);
    assert(z1 == z2);
    assert(p.color == q.color);
    assert(spec_piece_ord(p.piece_type) == spec_piece_ord(q.piece_type));
    assert(p.piece_type == q.piece_type);
}

/// Collision freedom: two positions that agree on every encoded value
/// hold the same pieces on every square of both tiers.
pub proof fn lemma_encode_injective(b1: BoardsV, b2: BoardsV)
    requires
        wf_boards(b1),
        wf_boards(b2),
        forall|x: int, y: int, c: int|
            0 <= x < 9 && 0 <= y < 9 && 0 <= c < 56 ==> spec_enc_at(b1, x, y, c) == spec_enc_at(
                b2,
                x,
                y,
                c,
            ),
    ensures
        b1 == b2,
{
    assert forall|i: int| 0 <= i < 81 implies b1.main[i] == b2.main[i] && b1.pool[i]
        == b2.pool[i] by {
        let x = i % 9;
        let y = i / 9;
        assert(sq_idx(x, y) == i);
        assert(square_at(b1.main, x, y) == b1.main[i]);
        assert(square_at(b2.main, x, y) == b2.main[i]);
        assert(square_at(b1.pool, x, y) == b1.pool[i]);
        assert(square_at(b2.pool, x, y) == b2.pool[i]);
        match b1.main[i] {
            Some(p) => {
                lemma_ord_bounds(p);
                let c = spec_channel(p, 0);
                assert(spec_enc_at(b1, x, y, c) == 1);
                assert(spec_enc_at(b2, x, y, c) == 1);
                match b2.main[i] {
                    Some(p2) => {
                        lemma_ord_bounds(p2);
                        if spec_channel(p2, 0) == c {
                            lemma_channel_inj(p2, 0, p, 0);
                        } else {
                            match b2.pool[i] {
                                Some(q2) => {
                                    lemma_ord_bounds(q2);
                                    assert(spec_channel(q2, 1) != c);
                                    assert(false);
                                }
                                None => {
                                    assert(false);
                                }
                            }
                        }
                    }
                    None => {
                        match b2.pool[i] {
                            Some(q2) => {
                                lemma_ord_bounds(q2);
                                assert(spec_channel(q2, 1) != c);
                                assert(false);
                            }
                            None => {
                                assert(false);
                            }
                        }
                    }
                }
            }
            None => {
                match b2.main[i] {
                    Some(p2) => {
                        lemma_ord_bounds(p2);
                        let c = spec_channel(p2, 0);
                        assert(spec_enc_at(b2, x, y, c) == 1);
                        assert(spec_enc_at(b1, x, y, c) == 1);
                        match b1.pool[i] {
                            Some(q1) => {
                                lemma_ord_bounds(q1);
                                assert(spec_channel(q1, 1) != c);
                                assert(false);
                            }
                            None => {
                                assert(false);
                            }
                        }
                    }
                    None => {}
                }
            }
        }
        match b1.pool[i] {
            Some(q) => {
                lemma_ord_bounds(q);
                let c = spec_channel(q, 1);
                assert(spec_enc_at(b1, x, y, c) == 1);
                assert(spec_enc_at(b2, x, y, c) == 1);
                match b2.pool[i] {
                    Some(q2) => {
                        lemma_ord_bounds(q2);
                        match b2.main[i] {
                            Some(p2) => { lemma_ord_bounds(p2); }
                            None => {}
                        }
                        assert(spec_channel(q2, 1) == c);
                        lemma_channel_inj(q2, 1, q, 1);
                    }
                    None => {
                        match b2.main[i] {
                            Some(p2) => { lemma_ord_bounds(p2); }
                            None => {}
                        }
                        assert(false);
                    }
                }
            }
            None => {
                match b2.pool[i] {
                    Some(q2) => {
                        lemma_ord_bounds(q2);
                        let c = spec_channel(q2, 1);
                        assert(spec_enc_at(b2, x, y, c) == 1);
                        assert(spec_enc_at(b1, x, y, c) == 1);
                        match b1.main[i] {
                            Some(p1) => { lemma_ord_bounds(p1); }
                            None => {}
                        }
                        assert(false);
                    }
                    None => {}
                }
            }
        }
    }
    assert(b1.main =~= b2.main);
    assert(b1.pool =~= b2.pool);
}

/// The bytes of channels `c..56` of one coordinate.
pub open spec fn spec_chan_bytes(bs: BoardsV, x: int, y: int, c: int) -> Seq<u8>
    decreases 56 - c,
{
    if c < 0 || c >= 56 {
        Seq::empty()
    } else {
        seq![spec_enc_at(bs, x, y, c)] + spec_chan_bytes(bs, x, y, c + 1)
    }
}

/// The bytes of rows `y..9` of one column.
pub open spec fn spec_col_bytes(bs: BoardsV, x: int, y: int) -> Seq<u8>
    decreases 9 - y,
{
    if y < 0 || y >= 9 {
        Seq::empty()
    } else {
        spec_chan_bytes(bs, x, y, 0) + spec_col_bytes(bs, x, y + 1)
    }
}

/// The bytes of columns `x..9` of one position.
pub open spec fn spec_board_bytes_from(bs: BoardsV, x: int) -> Seq<u8>
    decreases 9 - x,
{
    if x < 0 || x >= 9 {
        Seq::empty()
    } else {
        spec_col_bytes(bs, x, 0) + spec_board_bytes_from(bs, x + 1)
    }
}

/// One position flattened to bytes, column major, channels innermost.
pub open spec fn spec_board_bytes(bs: BoardsV) -> Seq<u8> {
    spec_board_bytes_from(bs, 0)
}

/// The positions `i..` of a history, flattened and concatenated.
pub open spec fn spec_record_bytes(rec: Seq<BoardsV>, i: int) -> Seq<u8>
    decreases rec.len() - i,
{
    if i < 0 || i >= rec.len() {
        Seq::empty()
    } else {
        spec_board_bytes(rec[i]) + spec_record_bytes(rec, i + 1)
    }
}

/// One position flattened to bytes.
#[verifier::loop_isolation(false)]
pub fn board_bytes(boards: &Boards) -> (r: Vec<u8>)
    requires
        wf_boards(boards@),
    ensures
        r@ == spec_board_bytes(boards@),
{
    let mut r: Vec<u8> = Vec::new();
    proof {
        assert(Seq::<u8>::empty() + spec_board_bytes_from(boards@, 0) =~= spec_board_bytes_from(
            boards@,
            0,
        ));
    }
    let mut x: usize = 0;
    while x < 9
        invariant
            x <= 9,
            spec_board_bytes(boards@) == r@ + spec_board_bytes_from(boards@, x as int),
        decreases 9 - x,
    {
        let ghost outx = r@;
        let mut y: usize = 0;
        proof {
            assert(outx + (Seq::<u8>::empty() + spec_col_bytes(boards@, x as int, 0))
                =~= outx + spec_col_bytes(boards@, x as int, 0));
        }
        while y < 9
            invariant
                y <= 9,
                x < 9,
                outx + spec_col_bytes(boards@, x as int, 0) == r@ + spec_col_bytes(
                    boards@,
                    x as int,
                    y as int,
                ),
            decreases 9 - y,
        {
            let ghost outy = r@;
            let mut c: usize = 0;
            while c < 56
                invariant
                    c <= 56,
                    x < 9,
                    y < 9,
                    outy + spec_chan_bytes(boards@, x as int, y as int, 0) == r@ + spec_chan_bytes(
                        boards@,
                        x as int,
                        y as int,
                        c as int,
                    ),
                decreases 56 - c,
            {
                let ghost out0 = r@;
                r.push(enc_cell(boards, x, y, c));
                c = c + 1;
                proof {
                    assert(r@ + spec_chan_bytes(boards@, x as int, y as int, c as int) =~= out0
                        + spec_chan_bytes(boards@, x as int, y as int, c - 1));
                }
            }
            y = y + 1;
            proof {
                assert(r@ + spec_col_bytes(boards@, x as int, y as int) =~= outy + spec_col_bytes(
                    boards@,
                    x as int,
                    y - 1,
                ));
            }
        }
        x = x + 1;
        proof {
            assert(r@ + spec_board_bytes_from(boards@, x as int) =~= outx
                + spec_board_bytes_from(boards@, x - 1));
        }
    }
    r
}

/// A whole history flattened to the byte record an external sink stores.
#[verifier::loop_isolation(false)]
pub fn record_bytes(record: &Vec<Boards>) -> (r: Vec<u8>)
    requires
        forall|j: int| 0 <= j < record@.len() ==> wf_boards((#[trigger] record@[j])@),
    ensures
        r@ == spec_record_bytes(record@.map_values(|b: Boards| b@), 0),
{
    let ghost rec = record@.map_values(|b: Boards| b@);
    let mut r: Vec<u8> = Vec::new();
    proof {
        assert(Seq::<u8>::empty() + spec_record_bytes(rec, 0) =~= spec_record_bytes(rec, 0));
    }
    let mut i: usize = 0;
    while i < record.len()
        invariant
            i <= record@.len(),
            spec_record_bytes(rec, 0) == r@ + spec_record_bytes(rec, i as int),
        decreases record@.len() - i,
    {
        let ghost out0 = r@;
        let mut bb = board_bytes(&record[i]);
        r.append(&mut bb);
        i = i + 1;
        proof {
            assert(r@ + spec_record_bytes(rec, i as int) =~= out0 + spec_record_bytes(rec, i - 1));
        }
    }
    r
}

} // verus!
