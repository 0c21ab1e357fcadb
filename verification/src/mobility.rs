//! An upper bound on the number of moves that a side has on a board.
//!
//! The bound is taken piece by piece. A queen, rook or bishop is counted
//! with the squares that it reaches along its lines on the given board: the
//! empty squares up to the first piece, and that square too where the piece
//! is not its own. A knight is counted with 8 moves and a king with 10, two
//! of them for castling. A pawn is counted with 4 moves, one step, two steps
//! and a capture to either side, and with 12 where its next step promotes.
//! No side has more moves than that, whatever else the rules forbid.

use crate::fen::{is_black_piece, is_white_piece, EMPTY};
use vstd::prelude::*;

verus! {

/// The largest bound on the moves of the side to move with which a position
/// is taken: the lists in which the rules collect the moves hold no more.
pub const MOVE_LIMIT: u32 = 248;

/// The byte stands for a piece of the side that is asked about.
pub open spec fn own_piece(b: u8, white: bool) -> bool {
    if white {
        is_white_piece(b)
    } else {
        is_black_piece(b)
    }
}

/// The squares that are reached from rank `r` and file `f` onward in steps
/// of `dr` and `df`, at most `steps` of them: the empty squares up to the
/// first piece or the edge, and the square of that piece if it is no piece of
/// the side. Ranks are counted from the eighth down, files from a.
pub open spec fn reach(
    squares: Seq<Seq<u8>>,
    white: bool,
    r: int,
    f: int,
    dr: int,
    df: int,
    steps: nat,
) -> nat
    decreases steps,
{
    if steps == 0 || !(0 <= r < 8 && 0 <= f < 8) || own_piece(squares[r][f], white) {
        0
    } else if squares[r][f] != EMPTY {
        1
    } else {
        1 + reach(squares, white, r + dr, f + df, dr, df, (steps - 1) as nat)
    }
}

/// The squares that a piece on rank `r` and file `f` reaches along one line.
pub open spec fn line(squares: Seq<Seq<u8>>, white: bool, r: int, f: int, dr: int, df: int) -> nat {
    reach(squares, white, r + dr, f + df, dr, df, 7)
}

/// The squares reached along the rank and the file.
pub open spec fn straight_reach(squares: Seq<Seq<u8>>, white: bool, r: int, f: int) -> nat {
    line(squares, white, r, f, -1, 0) + line(squares, white, r, f, 1, 0) + line(
        squares,
        white,
        r,
        f,
        0,
        -1,
    ) + line(squares, white, r, f, 0, 1)
}

/// The squares reached along the two diagonals.
pub open spec fn diagonal_reach(squares: Seq<Seq<u8>>, white: bool, r: int, f: int) -> nat {
    line(squares, white, r, f, -1, -1) + line(squares, white, r, f, -1, 1) + line(
        squares,
        white,
        r,
        f,
        1,
        -1,
    ) + line(squares, white, r, f, 1, 1)
}

/// The rank, counted from the eighth down, from which a pawn of the side
/// promotes with its next step.
pub open spec fn last_pawn_rank(white: bool) -> int {
    if white {
        1
    } else {
        6
    }
}

/// The bound on the moves of what stands on rank `r` and file `f`: 0 unless
/// it is a piece of the side.
pub open spec fn piece_bound(squares: Seq<Seq<u8>>, white: bool, r: int, f: int) -> nat {
    let b = squares[r][f];
    if !own_piece(b, white) {
        0
    } else if b == 'Q' as u8 || b == 'q' as u8 {
        straight_reach(squares, white, r, f) + diagonal_reach(squares, white, r, f)
    } else if b == 'R' as u8 || b == 'r' as u8 {
        straight_reach(squares, white, r, f)
    } else if b == 'B' as u8 || b == 'b' as u8 {
        diagonal_reach(squares, white, r, f)
    } else if b == 'N' as u8 || b == 'n' as u8 {
        8
    } else if b == 'K' as u8 || b == 'k' as u8 {
        10
    } else if r == last_pawn_rank(white) {
        12
    } else {
        4
    }
}

/// The bound on the moves of the pieces on the first `files` files of a rank.
pub open spec fn rank_bound(squares: Seq<Seq<u8>>, white: bool, r: int, files: nat) -> nat
    decreases files,
{
    if files == 0 {
        0
    } else {
        rank_bound(squares, white, r, (files - 1) as nat) + piece_bound(
            squares,
            white,
            r,
            files - 1,
        )
    }
}

/// The bound on the moves of the pieces on the first `ranks` ranks.
pub open spec fn board_bound(squares: Seq<Seq<u8>>, white: bool, ranks: nat) -> nat
    decreases ranks,
{
    if ranks == 0 {
        0
    } else {
        board_bound(squares, white, (ranks - 1) as nat) + rank_bound(squares, white, ranks - 1, 8)
    }
}

/// The bound on the moves of a side on the whole board.
pub open spec fn move_bound(squares: Seq<Seq<u8>>, white: bool) -> nat {
    board_bound(squares, white, 8)
}

/// The board has eight ranks of eight squares.
pub open spec fn eight_by_eight(board: Seq<Vec<u8>>) -> bool {
    &&& board.len() == 8
    &&& forall|r: int| 0 <= r < 8 ==> (#[trigger] board[r])@.len() == 8
}

/// The squares of a board, rank by rank.
pub open spec fn board_squares(board: Seq<Vec<u8>>) -> Seq<Seq<u8>> {
    Seq::new(board.len(), |r: int| board[r]@)
}

fn is_own(b: u8, white: bool) -> (own: bool)
    ensures
        own == own_piece(b, white),
{
    if white {
        b == 'P' as u8 || b == 'N' as u8 || b == 'B' as u8 || b == 'R' as u8 || b == 'Q' as u8
            || b == 'K' as u8
    } else {
        b == 'p' as u8 || b == 'n' as u8 || b == 'b' as u8 || b == 'r' as u8 || b == 'q' as u8
            || b == 'k' as u8
    }
}

/// Counts the squares along one line.
fn count_line(board: &Vec<Vec<u8>>, white: bool, r: usize, f: usize, dr: i8, df: i8) -> (n: u32)
    requires
        eight_by_eight(board@),
        r < 8,
        f < 8,
        -1 <= dr <= 1,
        -1 <= df <= 1,
    ensures
        n == line(board_squares(board@), white, r as int, f as int, dr as int, df as int),
        n <= 7,
{
    let ghost squares = board_squares(board@);
    let mut cr: i8 = r as i8 + dr;
    let mut cf: i8 = f as i8 + df;
    let mut left: u8 = 7;
    let mut n: u32 = 0;
    while left > 0 && 0 <= cr && cr < 8 && 0 <= cf && cf < 8
        invariant
            eight_by_eight(board@),
            squares == board_squares(board@),
            -1 <= dr <= 1,
            -1 <= df <= 1,
            -1 <= cr <= 8,
            -1 <= cf <= 8,
            n + left == 7,
            line(squares, white, r as int, f as int, dr as int, df as int) == n + reach(
                squares,
                white,
                cr as int,
                cf as int,
                dr as int,
                df as int,
                left as nat,
            ),
        decreases left,
    {
        let b = board[cr as usize][cf as usize];
        assert(squares[cr as int][cf as int] == b);
        if is_own(b, white) {
            return n;
        }
        if b != EMPTY {
            return n + 1;
        }
        n += 1;
        cr += dr;
        cf += df;
        left -= 1;
    }
    n
}

fn count_straight(board: &Vec<Vec<u8>>, white: bool, r: usize, f: usize) -> (n: u32)
    requires
        eight_by_eight(board@),
        r < 8,
        f < 8,
    ensures
        n == straight_reach(board_squares(board@), white, r as int, f as int),
        n <= 28,
{
    count_line(board, white, r, f, -1, 0) + count_line(board, white, r, f, 1, 0) + count_line(
        board,
        white,
        r,
        f,
        0,
        -1,
    ) + count_line(board, white, r, f, 0, 1)
}

fn count_diagonal(board: &Vec<Vec<u8>>, white: bool, r: usize, f: usize) -> (n: u32)
    requires
        eight_by_eight(board@),
        r < 8,
        f < 8,
    ensures
        n == diagonal_reach(board_squares(board@), white, r as int, f as int),
        n <= 28,
{
    count_line(board, white, r, f, -1, -1) + count_line(board, white, r, f, -1, 1) + count_line(
        board,
        white,
        r,
        f,
        1,
        -1,
    ) + count_line(board, white, r, f, 1, 1)
}

/// The bound on the moves of what stands on one square.
fn bound_of_square(board: &Vec<Vec<u8>>, white: bool, r: usize, f: usize) -> (n: u32)
    requires
        eight_by_eight(board@),
        r < 8,
        f < 8,
    ensures
        n == piece_bound(board_squares(board@), white, r as int, f as int),
        n <= 56,
{
    let b = board[r][f];
    assert(board_squares(board@)[r as int][f as int] == b);
    if !is_own(b, white) {
        0
    } else if b == 'Q' as u8 || b == 'q' as u8 {
        count_straight(board, white, r, f) + count_diagonal(board, white, r, f)
    } else if b == 'R' as u8 || b == 'r' as u8 {
        count_straight(board, white, r, f)
    } else if b == 'B' as u8 || b == 'b' as u8 {
        count_diagonal(board, white, r, f)
    } else if b == 'N' as u8 || b == 'n' as u8 {
        8
    } else if b == 'K' as u8 || b == 'k' as u8 {
        10
    } else if (white && r == 1) || (!white && r == 6) {
        12
    } else {
        4
    }
}

/// The bound on the moves of a side on the whole board.
pub fn bound_of_board(board: &Vec<Vec<u8>>, white: bool) -> (n: u32)
    requires
        eight_by_eight(board@),
    ensures
        n == move_bound(board_squares(board@), white),
{
    let ghost squares = board_squares(board@);
    let mut total: u32 = 0;
    let mut r: usize = 0;
    while r < 8
        invariant
            r <= 8,
            eight_by_eight(board@),
            squares == board_squares(board@),
            total == board_bound(squares, white, r as nat),
            total <= 448 * r,
        decreases 8 - r,
    {
        let mut in_rank: u32 = 0;
        let mut f: usize = 0;
        while f < 8
            invariant
                r < 8,
                f <= 8,
                eight_by_eight(board@),
                squares == board_squares(board@),
                in_rank == rank_bound(squares, white, r as int, f as nat),
                in_rank <= 56 * f,
            decreases 8 - f,
        {
            in_rank += bound_of_square(board, white, r, f);
            f += 1;
        }
        total += in_rank;
        r += 1;
    }
    total
}

/// A rank without a piece of the side adds nothing to the bound.
pub proof fn lemma_idle_rank(squares: Seq<Seq<u8>>, white: bool, r: int, files: nat)
    requires
        forall|f: int| 0 <= f < files ==> !own_piece(#[trigger] squares[r][f], white),
    ensures
        rank_bound(squares, white, r, files) == 0,
    decreases files,
{
    if files > 0 {
        lemma_idle_rank(squares, white, r, (files - 1) as nat);
    }
}

/// A rank on which no square is counted with more than 4 moves.
pub proof fn lemma_quiet_rank(squares: Seq<Seq<u8>>, white: bool, r: int, files: nat)
    requires
        forall|f: int| 0 <= f < files ==> #[trigger] piece_bound(squares, white, r, f) <= 4,
    ensures
        rank_bound(squares, white, r, files) <= 4 * files,
    decreases files,
{
    if files > 0 {
        lemma_quiet_rank(squares, white, r, (files - 1) as nat);
    }
}

/// The squares on which the side has a piece, one bit for each square: bit 0
/// for a1, bit 1 for b1, and so on rank by rank up to bit 63 for h8. Of the
/// 64 squares only the first `n` are looked at.
pub open spec fn side_squares(squares: Seq<Seq<u8>>, white: bool, n: nat) -> u64
    decreases n,
{
    if n == 0 {
        0
    } else {
        let rest = side_squares(squares, white, (n - 1) as nat);
        if own_piece(squares[7 - (n - 1) / 8][(n - 1) % 8], white) {
            rest | (1u64 << ((n - 1) as u64))
        } else {
            rest
        }
    }
}

/// The squares on which the side has a piece, one bit for each square.
pub fn squares_of_side(board: &Vec<Vec<u8>>, white: bool) -> (bits: u64)
    requires
        eight_by_eight(board@),
    ensures
        bits == side_squares(board_squares(board@), white, 64),
{
    let ghost squares = board_squares(board@);
    let mut bits: u64 = 0;
    let mut n: u64 = 0;
    while n < 64
        invariant
            n <= 64,
            eight_by_eight(board@),
            squares == board_squares(board@),
            bits == side_squares(squares, white, n as nat),
        decreases 64 - n,
    {
        let r: usize = 7 - (n / 8) as usize;
        let f: usize = (n % 8) as usize;
        let b = board[r][f];
        assert(squares[r as int][f as int] == b);
        if is_own(b, white) {
            bits = bits | (1u64 << n);
        }
        n += 1;
    }
    bits
}

} // verus!
