//! The position with which every game starts.

use crate::fen::{
    ascii_bytes, count, decimal, is_digit, is_piece, lemma_count_concat, lemma_split_first,
    lemma_split_whole, placement_squares, rank_ok, rank_squares, split, symbol_squares,
    well_formed, EMPTY,
};
use crate::mobility::{
    board_bound, lemma_idle_rank, lemma_quiet_rank, move_bound, piece_bound, rank_bound,
};
use vstd::prelude::*;

verus! {

/// The position with which every game starts.
pub const OPENING_POSITION: &'static str =
    "rnbqkbnr/pppppppp/8/8/8/8/PPPPPPPP/RNBQKBNR w KQkq - 0 1";

/// The eighth rank before the first move.
pub open spec fn black_pieces() -> Seq<u8> {
    seq![
        'r' as u8,
        'n' as u8,
        'b' as u8,
        'q' as u8,
        'k' as u8,
        'b' as u8,
        'n' as u8,
        'r' as u8,
    ]
}

/// The seventh rank before the first move.
pub open spec fn black_pawns() -> Seq<u8> {
    seq![
        'p' as u8,
        'p' as u8,
        'p' as u8,
        'p' as u8,
        'p' as u8,
        'p' as u8,
        'p' as u8,
        'p' as u8,
    ]
}

/// The second rank before the first move.
pub open spec fn white_pawns() -> Seq<u8> {
    seq![
        'P' as u8,
        'P' as u8,
        'P' as u8,
        'P' as u8,
        'P' as u8,
        'P' as u8,
        'P' as u8,
        'P' as u8,
    ]
}

/// The first rank before the first move.
pub open spec fn white_pieces() -> Seq<u8> {
    seq![
        'R' as u8,
        'N' as u8,
        'B' as u8,
        'Q' as u8,
        'K' as u8,
        'B' as u8,
        'N' as u8,
        'R' as u8,
    ]
}

/// The squares of the board before the first move.
pub open spec fn opening_squares() -> Seq<Seq<u8>> {
    seq![
        black_pieces(),
        black_pawns(),
        Seq::new(8, |i: int| EMPTY),
        Seq::new(8, |i: int| EMPTY),
        Seq::new(8, |i: int| EMPTY),
        Seq::new(8, |i: int| EMPTY),
        white_pawns(),
        white_pieces(),
    ]
}

/// A rank of eight pieces is in order and stands for itself.
proof fn lemma_full_rank(rank: Seq<u8>)
    requires
        rank.len() == 8,
        forall|i: int| 0 <= i < 8 ==> is_piece(#[trigger] rank[i]),
    ensures
        rank_ok(rank),
        rank_squares(rank) == rank,
        forall|i: int| 0 <= i < 8 ==> rank[i] != '/' as u8 && rank[i] != ' ' as u8,
{
    lemma_piece_prefix(rank, 8);
    assert(rank.take(8) =~= rank);
}

/// A run of pieces stands for itself.
proof fn lemma_piece_prefix(rank: Seq<u8>, n: int)
    requires
        0 <= n <= rank.len(),
        forall|i: int| 0 <= i < n ==> is_piece(#[trigger] rank[i]),
    ensures
        rank_squares(rank.take(n)) == rank.take(n),
    decreases n,
{
    if n == 0 {
        assert(rank.take(0) =~= Seq::<u8>::empty());
    } else {
        lemma_piece_prefix(rank, n - 1);
        assert(rank.take(n).drop_last() =~= rank.take(n - 1));
        assert(rank.take(n) =~= rank.take(n - 1) + seq![rank[n - 1]]);
    }
}

/// What the recursive definitions say of a text of one byte.
proof fn lemma_single(b: u8, x: u8)
    ensures
        rank_squares(seq![b]) == symbol_squares(b),
        count(seq![b], x) == if b == x {
            1nat
        } else {
            0nat
        },
        is_digit(b) ==> decimal(seq![b]) == b - '0' as u8,
{
    let s = seq![b];
    assert(s.drop_last() =~= Seq::<u8>::empty());
    assert(rank_squares(Seq::<u8>::empty()) =~= Seq::<u8>::empty());
    assert(count(Seq::<u8>::empty(), x) == 0);
    assert(decimal(Seq::<u8>::empty()) == 0);
    assert(rank_squares(s) =~= symbol_squares(b));
}

/// The rank `8` is in order and stands for eight empty squares.
proof fn lemma_empty_rank()
    ensures
        rank_ok(seq!['8' as u8]),
        rank_squares(seq!['8' as u8]) == Seq::new(8, |i: int| EMPTY),
{
    let rank = seq!['8' as u8];
    lemma_single('8' as u8, 0);
    assert(rank_squares(rank) =~= Seq::new(8, |i: int| EMPTY));
}

/// A rank of eight bytes that holds `x` nowhere but at `at` holds it once if
/// it holds it there, and else not at all.
proof fn lemma_count_rank(rank: Seq<u8>, x: u8, at: int)
    requires
        rank.len() == 8,
        forall|i: int| 0 <= i < 8 && i != at ==> rank[i] != x,
    ensures
        count(rank, x) == if 0 <= at < 8 && rank[at] == x {
            1nat
        } else {
            0nat
        },
{
    lemma_count_prefix(rank, x, at, 8);
    assert(rank.take(8) =~= rank);
}

/// The same of the beginning of a rank.
proof fn lemma_count_prefix(rank: Seq<u8>, x: u8, at: int, n: int)
    requires
        0 <= n <= rank.len(),
        forall|i: int| 0 <= i < n && i != at ==> rank[i] != x,
    ensures
        count(rank.take(n), x) == if 0 <= at < n && rank[at] == x {
            1nat
        } else {
            0nat
        },
    decreases n,
{
    if n == 0 {
        assert(rank.take(0) =~= Seq::<u8>::empty());
    } else {
        lemma_count_prefix(rank, x, at, n - 1);
        assert(rank.take(n).drop_last() =~= rank.take(n - 1));
    }
}

/// Before the first move White has at most 58 moves by the bound that is
/// taken piece by piece: 4 for each pawn, 8 for each knight and 10 for the
/// king, and none for the pieces that are shut in.
proof fn lemma_opening_bound()
    ensures
        move_bound(opening_squares(), true) <= 58,
{
    let squares = opening_squares();
    lemma_idle_rank(squares, true, 0, 8);
    lemma_idle_rank(squares, true, 1, 8);
    lemma_idle_rank(squares, true, 2, 8);
    lemma_idle_rank(squares, true, 3, 8);
    lemma_idle_rank(squares, true, 4, 8);
    lemma_idle_rank(squares, true, 5, 8);
    assert forall|f: int| 0 <= f < 8 implies #[trigger] piece_bound(squares, true, 6, f) <= 4 by {
        assert(squares[6][f] == 'P' as u8);
    }
    lemma_quiet_rank(squares, true, 6, 8);
    assert(piece_bound(squares, true, 7, 0) == 0);
    assert(piece_bound(squares, true, 7, 1) == 8);
    assert(piece_bound(squares, true, 7, 2) == 0);
    assert(piece_bound(squares, true, 7, 3) == 0);
    assert(piece_bound(squares, true, 7, 4) == 10);
    assert(piece_bound(squares, true, 7, 5) == 0);
    assert(piece_bound(squares, true, 7, 6) == 8);
    assert(piece_bound(squares, true, 7, 7) == 0);
    assert(rank_bound(squares, true, 7, 8) == 26) by {
        reveal_with_fuel(rank_bound, 9);
    }
    assert(board_bound(squares, true, 8) <= 58) by {
        reveal_with_fuel(board_bound, 9);
    }
}

/// The opening position is well formed, and read field by field it is the
/// board before the first move with White to move, every castling right and
/// no en-passant target.
pub proof fn opening_position_is_well_formed()
    ensures
        well_formed(OPENING_POSITION@),
        ({
            let fields = split(ascii_bytes(OPENING_POSITION@), ' ' as u8);
            &&& placement_squares(fields[0]) == opening_squares()
            &&& fields[1] == seq!['w' as u8]
            &&& fields[2] == seq!['K' as u8, 'Q' as u8, 'k' as u8, 'q' as u8]
            &&& fields[3] == seq!['-' as u8]
            &&& decimal(fields[4]) == 0
            &&& decimal(fields[5]) == 1
        }),
{
    reveal_strlit("rnbqkbnr/pppppppp/8/8/8/8/PPPPPPPP/RNBQKBNR w KQkq - 0 1");
    let bytes = ascii_bytes(OPENING_POSITION@);
    let slash = '/' as u8;
    let space = ' ' as u8;
    let gap = seq!['8' as u8];
    // the ranks of the placement, from the first up
    let r1 = white_pieces();
    let r2 = white_pawns() + seq![slash] + r1;
    let r3 = gap + seq![slash] + r2;
    let r4 = gap + seq![slash] + r3;
    let r5 = gap + seq![slash] + r4;
    let r6 = gap + seq![slash] + r5;
    let r7 = black_pawns() + seq![slash] + r6;
    let placement = black_pieces() + seq![slash] + r7;
    // the fields, from the last back
    let side = seq!['w' as u8];
    let castling = seq!['K' as u8, 'Q' as u8, 'k' as u8, 'q' as u8];
    let target = seq!['-' as u8];
    let half = seq!['0' as u8];
    let full = seq!['1' as u8];
    let f5 = full;
    let f4 = half + seq![space] + f5;
    let f3 = target + seq![space] + f4;
    let f2 = castling + seq![space] + f3;
    let f1 = side + seq![space] + f2;
    let f0 = placement + seq![space] + f1;
    assert(bytes =~= f0);

    lemma_full_rank(black_pieces());
    lemma_full_rank(black_pawns());
    lemma_full_rank(white_pawns());
    lemma_full_rank(white_pieces());
    lemma_empty_rank();

    lemma_split_whole(r1, slash);
    lemma_split_first(white_pawns(), r1, slash);
    lemma_split_first(gap, r2, slash);
    lemma_split_first(gap, r3, slash);
    lemma_split_first(gap, r4, slash);
    lemma_split_first(gap, r5, slash);
    lemma_split_first(black_pawns(), r6, slash);
    lemma_split_first(black_pieces(), r7, slash);
    let ranks = split(placement, slash);
    assert(ranks =~= seq![
        black_pieces(),
        black_pawns(),
        gap,
        gap,
        gap,
        gap,
        white_pawns(),
        white_pieces(),
    ]);
    assert(placement_squares(placement) =~= opening_squares());

    let white_king = 'K' as u8;
    let black_king = 'k' as u8;
    lemma_count_rank(white_pieces(), white_king, 4);
    lemma_count_rank(white_pawns(), white_king, -1);
    lemma_count_rank(black_pawns(), white_king, -1);
    lemma_count_rank(black_pieces(), white_king, -1);
    lemma_count_rank(white_pieces(), black_king, -1);
    lemma_count_rank(white_pawns(), black_king, -1);
    lemma_count_rank(black_pawns(), black_king, -1);
    lemma_count_rank(black_pieces(), black_king, 4);
    assert forall|x: u8| x == white_king || x == black_king implies count(placement, x)
        == 1 by {
        lemma_single(slash, x);
        lemma_single('8' as u8, x);
        lemma_count_concat(white_pawns() + seq![slash], r1, x);
        lemma_count_concat(white_pawns(), seq![slash], x);
        lemma_count_concat(gap + seq![slash], r2, x);
        lemma_count_concat(gap + seq![slash], r3, x);
        lemma_count_concat(gap + seq![slash], r4, x);
        lemma_count_concat(gap + seq![slash], r5, x);
        lemma_count_concat(gap, seq![slash], x);
        lemma_count_concat(black_pawns() + seq![slash], r6, x);
        lemma_count_concat(black_pawns(), seq![slash], x);
        lemma_count_concat(black_pieces() + seq![slash], r7, x);
        lemma_count_concat(black_pieces(), seq![slash], x);
    }

    lemma_split_whole(f5, space);
    lemma_split_first(half, f5, space);
    lemma_split_first(target, f4, space);
    lemma_split_first(castling, f3, space);
    lemma_split_first(side, f2, space);
    lemma_split_first(placement, f1, space);
    let fields = split(bytes, space);
    assert(fields =~= seq![placement, side, castling, target, half, full]);

    lemma_single('0' as u8, 0);
    lemma_single('1' as u8, 0);
    lemma_opening_bound();
}

} // verus!
