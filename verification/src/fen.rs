//! The syntax of a position written in Forsyth-Edwards notation.
//!
//! A position is six fields separated by single spaces: the piece placement,
//! the side to move, the castling rights, the en-passant target and the two
//! move counters. [`well_formed`] says which texts are accepted and
//! [`is_well_formed`] decides it.
//!
//! Beyond the grammar, a well-formed position has what the rules of chess
//! need before they can be asked about it: one king of each colour, castling
//! rights only where king and rook stand on their home squares, an en-passant
//! target that is empty, counters of at most four digits, and for the side to
//! move no more moves than the rules have room for.

use crate::mobility::{board_squares, bound_of_board, eight_by_eight, move_bound, MOVE_LIMIT};
use vstd::prelude::*;
use vstd::slice::slice_subrange;

verus! {

/// The content of a square that holds no piece.
pub const EMPTY: u8 = 32;

/// The longest move counter that is accepted, in digits.
pub const COUNTER_DIGITS: usize = 4;

/// The bytes of a text, one per character. Meaningful for ASCII text.
pub open spec fn ascii_bytes(text: Seq<char>) -> Seq<u8> {
    Seq::new(text.len(), |i: int| text[i] as u8)
}

/// The pieces of `s` between the occurrences of `sep`, in order.
/// A text without `sep` is its own single piece.
pub open spec fn split(s: Seq<u8>, sep: u8) -> Seq<Seq<u8>>
    decreases s.len(),
{
    match s.index_of_first(sep) {
        Some(i) if 0 <= i < s.len() => seq![s.take(i)] + split(s.skip(i + 1), sep),
        _ => seq![s],
    }
}

pub open spec fn is_white_piece(b: u8) -> bool {
    b == 'P' as u8 || b == 'N' as u8 || b == 'B' as u8 || b == 'R' as u8 || b == 'Q' as u8 || b
        == 'K' as u8
}

pub open spec fn is_black_piece(b: u8) -> bool {
    b == 'p' as u8 || b == 'n' as u8 || b == 'b' as u8 || b == 'r' as u8 || b == 'q' as u8 || b
        == 'k' as u8
}

pub open spec fn is_piece(b: u8) -> bool {
    is_white_piece(b) || is_black_piece(b)
}

/// A digit from 1 to 8: that many empty squares in a rank.
pub open spec fn is_gap(b: u8) -> bool {
    '1' as u8 <= b <= '8' as u8
}

pub open spec fn is_digit(b: u8) -> bool {
    '0' as u8 <= b <= '9' as u8
}

/// The squares that one symbol of a rank stands for.
pub open spec fn symbol_squares(b: u8) -> Seq<u8> {
    if is_piece(b) {
        seq![b]
    } else if is_gap(b) {
        Seq::new((b - '0' as u8) as nat, |i: int| EMPTY)
    } else {
        Seq::empty()
    }
}

/// The squares of a rank from file a to file h, each a piece letter or `EMPTY`.
pub open spec fn rank_squares(rank: Seq<u8>) -> Seq<u8>
    decreases rank.len(),
{
    if rank.len() == 0 {
        Seq::empty()
    } else {
        rank_squares(rank.drop_last()) + symbol_squares(rank.last())
    }
}

/// A rank is made of piece letters and gaps that fill exactly eight squares.
pub open spec fn rank_ok(rank: Seq<u8>) -> bool {
    &&& forall|i: int| 0 <= i < rank.len() ==> is_piece(#[trigger] rank[i]) || is_gap(rank[i])
    &&& rank_squares(rank).len() == 8
}

/// How often `b` occurs in `s`.
pub open spec fn count(s: Seq<u8>, b: u8) -> nat
    decreases s.len(),
{
    if s.len() == 0 {
        0
    } else {
        count(s.drop_last(), b) + if s.last() == b {
            1nat
        } else {
            0nat
        }
    }
}

/// The placement has eight ranks, from the eighth down to the first, and one
/// king of each colour.
pub open spec fn placement_ok(placement: Seq<u8>) -> bool {
    let ranks = split(placement, '/' as u8);
    &&& ranks.len() == 8
    &&& forall|r: int| 0 <= r < 8 ==> rank_ok(#[trigger] ranks[r])
    &&& count(placement, 'K' as u8) == 1
    &&& count(placement, 'k' as u8) == 1
}

pub open spec fn side_ok(side: Seq<u8>) -> bool {
    side.len() == 1 && (side[0] == 'w' as u8 || side[0] == 'b' as u8)
}

/// The squares of the board, rank by rank from the eighth down to the first.
pub open spec fn placement_squares(placement: Seq<u8>) -> Seq<Seq<u8>> {
    let ranks = split(placement, '/' as u8);
    Seq::new(ranks.len(), |r: int| rank_squares(ranks[r]))
}

/// The place of a castling right in `KQkq`; 4 for any other byte.
pub open spec fn right_index(right: u8) -> int {
    if right == 'K' as u8 {
        0
    } else if right == 'Q' as u8 {
        1
    } else if right == 'k' as u8 {
        2
    } else if right == 'q' as u8 {
        3
    } else {
        4
    }
}

/// A castling right is one of `KQkq`, and the king and the rook that it
/// names stand on their home squares.
pub open spec fn right_ok(right: u8, squares: Seq<Seq<u8>>) -> bool {
    if right == 'K' as u8 {
        squares[7][4] == 'K' as u8 && squares[7][7] == 'R' as u8
    } else if right == 'Q' as u8 {
        squares[7][4] == 'K' as u8 && squares[7][0] == 'R' as u8
    } else if right == 'k' as u8 {
        squares[0][4] == 'k' as u8 && squares[0][7] == 'r' as u8
    } else if right == 'q' as u8 {
        squares[0][4] == 'k' as u8 && squares[0][0] == 'r' as u8
    } else {
        false
    }
}

/// The castling field is `-`, or rights that the placement allows, each at
/// most once and in the order of `KQkq`.
pub open spec fn castling_ok(castling: Seq<u8>, squares: Seq<Seq<u8>>) -> bool {
    ||| castling.len() == 1 && castling[0] == '-' as u8
    ||| {
        &&& 1 <= castling.len() <= 4
        &&& forall|i: int| 0 <= i < castling.len() ==> right_ok(#[trigger] castling[i], squares)
        &&& forall|i: int, j: int|
            0 <= i < j < castling.len() ==> right_index(#[trigger] castling[i]) < right_index(
                #[trigger] castling[j],
            )
    }
}

/// The en-passant field is `-`, or an empty square of the third or sixth rank.
pub open spec fn en_passant_ok(target: Seq<u8>, squares: Seq<Seq<u8>>) -> bool {
    ||| target.len() == 1 && target[0] == '-' as u8
    ||| {
        &&& target.len() == 2
        &&& 'a' as u8 <= target[0] <= 'h' as u8
        &&& target[1] == '3' as u8 || target[1] == '6' as u8
        &&& squares[if target[1] == '3' as u8 {
            5int
        } else {
            2int
        }][target[0] - 'a' as u8] == EMPTY
    }
}

/// A move counter is one to four decimal digits.
pub open spec fn counter_ok(digits: Seq<u8>) -> bool {
    &&& 1 <= digits.len() <= COUNTER_DIGITS
    &&& forall|i: int| 0 <= i < digits.len() ==> is_digit(#[trigger] digits[i])
}

/// The number that a run of decimal digits denotes.
pub open spec fn decimal(digits: Seq<u8>) -> nat
    decreases digits.len(),
{
    if digits.len() == 0 {
        0
    } else {
        10 * decimal(digits.drop_last()) + (digits.last() - '0' as u8) as nat
    }
}

/// The six fields of a position, each of them in order; the side to move
/// has no more moves than `MOVE_LIMIT`, by the bound that is taken piece by
/// piece, and the full-move number starts at 1.
pub open spec fn well_formed_bytes(fen: Seq<u8>) -> bool {
    let fields = split(fen, ' ' as u8);
    let squares = placement_squares(fields[0]);
    &&& fields.len() == 6
    &&& placement_ok(fields[0])
    &&& side_ok(fields[1])
    &&& move_bound(squares, fields[1][0] == 'w' as u8) <= MOVE_LIMIT
    &&& castling_ok(fields[2], squares)
    &&& en_passant_ok(fields[3], squares)
    &&& counter_ok(fields[4])
    &&& counter_ok(fields[5])
    &&& decimal(fields[5]) >= 1
}

/// A well-formed position is ASCII text whose bytes are the six fields.
pub open spec fn well_formed(text: Seq<char>) -> bool {
    vstd::utf8::is_ascii_chars(text) && well_formed_bytes(ascii_bytes(text))
}

/// Where `sep` first occurs in `s`, given that it occurs at `n` and not before.
proof fn lemma_first_at(s: Seq<u8>, sep: u8, n: int)
    requires
        0 <= n < s.len(),
        s[n] == sep,
        forall|j: int| 0 <= j < n ==> s[j] != sep,
    ensures
        s.index_of_first(sep) == Some(n),
{
    s.index_of_first_ensures(sep);
    assert(s.contains(sep));
}

/// Cuts `s` at every `sep`.
fn split_fields<'a>(s: &'a [u8], sep: u8) -> (out: Vec<&'a [u8]>)
    ensures
        out@.len() == split(s@, sep).len(),
        forall|k: int| 0 <= k < out@.len() ==> (#[trigger] out@[k])@ == split(s@, sep)[k],
{
    let mut out: Vec<&'a [u8]> = Vec::new();
    let ghost mut done: Seq<Seq<u8>> = Seq::empty();
    let mut start: usize = 0;
    let mut i: usize = 0;
    assert(s@.skip(0) =~= s@);
    while i < s.len()
        invariant
            start <= i <= s.len(),
            forall|j: int| start <= j < i ==> s@[j] != sep,
            out@.len() == done.len(),
            forall|k: int| 0 <= k < out@.len() ==> (#[trigger] out@[k])@ == done[k],
            split(s@, sep) =~= done + split(s@.skip(start as int), sep),
        decreases s.len() - i,
    {
        if s[i] == sep {
            let piece = slice_subrange(s, start, i);
            proof {
                let rest = s@.skip(start as int);
                let n = i - start;
                lemma_first_at(rest, sep, n);
                assert(rest.take(n) =~= s@.subrange(start as int, i as int));
                assert(rest.skip(n + 1) =~= s@.skip(i + 1));
                done = done.push(piece@);
            }
            out.push(piece);
            start = i + 1;
        }
        i += 1;
    }
    let piece = slice_subrange(s, start, s.len());
    proof {
        let rest = s@.skip(start as int);
        rest.index_of_first_ensures(sep);
        assert(rest =~= piece@);
        if rest.contains(sep) {
            let j = choose|j: int| 0 <= j < rest.len() && rest[j] == sep;
            assert(s@[start + j] == sep);
        }
        done = done.push(piece@);
    }
    out.push(piece);
    out
}

fn piece_byte(b: u8) -> (r: bool)
    ensures
        r == is_piece(b),
{
    b == 'P' as u8 || b == 'N' as u8 || b == 'B' as u8 || b == 'R' as u8 || b == 'Q' as u8 || b
        == 'K' as u8 || b == 'p' as u8 || b == 'n' as u8 || b == 'b' as u8 || b == 'r' as u8 || b
        == 'q' as u8 || b == 'k' as u8
}

/// The squares of a rank are at least as many as those of its beginning.
proof fn lemma_squares_grow(rank: Seq<u8>, n: int)
    requires
        0 <= n <= rank.len(),
    ensures
        rank_squares(rank.take(n)).len() <= rank_squares(rank).len(),
    decreases rank.len() - n,
{
    if n == rank.len() {
        assert(rank.take(n) =~= rank);
    } else {
        assert(rank.take(n + 1).drop_last() =~= rank.take(n));
        lemma_squares_grow(rank, n + 1);
    }
}

/// The eight squares of a rank, where the rank is in order.
fn expand_rank(rank: &[u8]) -> (out: Option<Vec<u8>>)
    ensures
        out is Some <==> rank_ok(rank@),
        out matches Some(squares) ==> squares@ == rank_squares(rank@),
{
    let mut squares: Vec<u8> = Vec::new();
    let mut i: usize = 0;
    assert(rank@.take(0) =~= Seq::<u8>::empty());
    while i < rank.len()
        invariant
            i <= rank.len(),
            squares@ == rank_squares(rank@.take(i as int)),
            squares@.len() <= 8,
            forall|j: int| 0 <= j < i ==> is_piece(#[trigger] rank@[j]) || is_gap(rank@[j]),
        decreases rank.len() - i,
    {
        let b = rank[i];
        assert(rank@.take(i + 1).drop_last() =~= rank@.take(i as int));
        if piece_byte(b) {
            squares.push(b);
            assert(squares@ =~= rank_squares(rank@.take(i as int)) + symbol_squares(b));
        } else if '1' as u8 <= b && b <= '8' as u8 {
            let gap: u8 = b - '0' as u8;
            let ghost before = squares@;
            let mut k: u8 = 0;
            while k < gap
                invariant
                    k <= gap,
                    squares@ =~= before + Seq::new(k as nat, |i: int| EMPTY),
                decreases gap - k,
            {
                squares.push(EMPTY);
                k += 1;
            }
            assert(squares@ =~= rank_squares(rank@.take(i as int)) + symbol_squares(b));
        } else {
            return None;
        }
        i += 1;
        if squares.len() > 8 {
            proof {
                lemma_squares_grow(rank@, i as int);
            }
            return None;
        }
    }
    assert(rank@.take(i as int) =~= rank@);
    if squares.len() == 8 {
        Some(squares)
    } else {
        None
    }
}

/// Counts the occurrences of a byte.
fn count_byte(s: &[u8], b: u8) -> (n: usize)
    ensures
        n == count(s@, b),
{
    let mut n: usize = 0;
    let mut i: usize = 0;
    assert(s@.take(0) =~= Seq::<u8>::empty());
    while i < s.len()
        invariant
            i <= s.len(),
            n <= i,
            n == count(s@.take(i as int), b),
        decreases s.len() - i,
    {
        assert(s@.take(i + 1).drop_last() =~= s@.take(i as int));
        if s[i] == b {
            n += 1;
        }
        i += 1;
    }
    assert(s@.take(i as int) =~= s@);
    n
}

/// `board` holds the squares of `placement`, eight ranks of eight.
pub open spec fn holds_squares(board: Seq<Vec<u8>>, placement: Seq<u8>) -> bool {
    &&& board.len() == 8
    &&& placement_squares(placement).len() == 8
    &&& forall|r: int|
        0 <= r < 8 ==> (#[trigger] board[r])@ == placement_squares(placement)[r] && board[r]@.len()
            == 8
}

/// The squares of the board, where the placement is in order.
fn check_placement(placement: &[u8]) -> (out: Option<Vec<Vec<u8>>>)
    ensures
        out is Some <==> placement_ok(placement@),
        out matches Some(board) ==> holds_squares(board@, placement@),
{
    let ranks = split_fields(placement, '/' as u8);
    if ranks.len() != 8 {
        return None;
    }
    let ghost model = split(placement@, '/' as u8);
    let mut board: Vec<Vec<u8>> = Vec::new();
    let mut r: usize = 0;
    while r < 8
        invariant
            r <= 8,
            ranks@.len() == 8,
            model == split(placement@, '/' as u8),
            model.len() == 8,
            forall|k: int| 0 <= k < 8 ==> (#[trigger] ranks@[k])@ == model[k],
            forall|k: int| 0 <= k < r ==> rank_ok(#[trigger] model[k]),
            board@.len() == r,
            forall|k: int| 0 <= k < r ==> (#[trigger] board@[k])@ == rank_squares(model[k]),
        decreases 8 - r,
    {
        match expand_rank(ranks[r]) {
            Some(squares) => {
                board.push(squares);
            },
            None => {
                assert(!rank_ok(model[r as int]));
                return None;
            },
        }
        r += 1;
    }
    if count_byte(placement, 'K' as u8) != 1 || count_byte(placement, 'k' as u8) != 1 {
        return None;
    }
    Some(board)
}

fn check_side(side: &[u8]) -> (ok: bool)
    ensures
        ok == side_ok(side@),
{
    side.len() == 1 && (side[0] == 'w' as u8 || side[0] == 'b' as u8)
}

fn right_place(right: u8) -> (place: u8)
    ensures
        place == right_index(right),
{
    if right == 'K' as u8 {
        0
    } else if right == 'Q' as u8 {
        1
    } else if right == 'k' as u8 {
        2
    } else if right == 'q' as u8 {
        3
    } else {
        4
    }
}

fn check_right(right: u8, board: &Vec<Vec<u8>>, Ghost(placement): Ghost<Seq<u8>>) -> (ok: bool)
    requires
        holds_squares(board@, placement),
    ensures
        ok == right_ok(right, placement_squares(placement)),
{
    let first = &board[7];
    let eighth = &board[0];
    if right == 'K' as u8 {
        first[4] == 'K' as u8 && first[7] == 'R' as u8
    } else if right == 'Q' as u8 {
        first[4] == 'K' as u8 && first[0] == 'R' as u8
    } else if right == 'k' as u8 {
        eighth[4] == 'k' as u8 && eighth[7] == 'r' as u8
    } else if right == 'q' as u8 {
        eighth[4] == 'k' as u8 && eighth[0] == 'r' as u8
    } else {
        false
    }
}

fn check_castling(castling: &[u8], board: &Vec<Vec<u8>>, Ghost(placement): Ghost<Seq<u8>>) -> (ok:
    bool)
    requires
        holds_squares(board@, placement),
    ensures
        ok == castling_ok(castling@, placement_squares(placement)),
{
    if castling.len() == 1 && castling[0] == '-' as u8 {
        return true;
    }
    if castling.len() < 1 || castling.len() > 4 {
        return false;
    }
    let ghost squares = placement_squares(placement);
    let mut i: usize = 0;
    while i < castling.len()
        invariant
            i <= castling.len(),
            1 <= castling.len() <= 4,
            !(castling@.len() == 1 && castling@[0] == '-' as u8),
            holds_squares(board@, placement),
            squares == placement_squares(placement),
            forall|j: int| 0 <= j < i ==> right_ok(#[trigger] castling@[j], squares),
            forall|j: int, k: int|
                0 <= j < k < i ==> right_index(#[trigger] castling@[j]) < right_index(
                    #[trigger] castling@[k],
                ),
        decreases castling.len() - i,
    {
        if !check_right(castling[i], board, Ghost(placement)) {
            assert(!right_ok(castling@[i as int], squares));
            return false;
        }
        let place = right_place(castling[i]);
        let mut j: usize = 0;
        while j < i
            invariant
                j <= i < castling.len(),
                place == right_index(castling@[i as int]),
                forall|k: int| 0 <= k < j ==> right_index(#[trigger] castling@[k]) < place,
                1 <= castling.len() <= 4,
                !(castling@.len() == 1 && castling@[0] == '-' as u8),
            decreases i - j,
        {
            if right_place(castling[j]) >= place {
                assert(!(right_index(castling@[j as int]) < right_index(castling@[i as int])));
                return false;
            }
            j += 1;
        }
        i += 1;
    }
    true
}

fn check_en_passant(target: &[u8], board: &Vec<Vec<u8>>, Ghost(placement): Ghost<Seq<u8>>) -> (ok:
    bool)
    requires
        holds_squares(board@, placement),
    ensures
        ok == en_passant_ok(target@, placement_squares(placement)),
{
    if target.len() == 1 {
        target[0] == '-' as u8
    } else if target.len() == 2 {
        if 'a' as u8 <= target[0] && target[0] <= 'h' as u8 {
            let file: usize = (target[0] - 'a' as u8) as usize;
            if target[1] == '3' as u8 {
                board[5][file] == EMPTY
            } else if target[1] == '6' as u8 {
                board[2][file] == EMPTY
            } else {
                false
            }
        } else {
            false
        }
    } else {
        false
    }
}

/// The value of a move counter, where the field is in order.
fn read_counter(digits: &[u8]) -> (out: Option<u16>)
    ensures
        out is Some <==> counter_ok(digits@),
        out matches Some(n) ==> n == decimal(digits@),
{
    if digits.len() < 1 || digits.len() > COUNTER_DIGITS {
        return None;
    }
    let mut value: u16 = 0;
    let mut bound: u16 = 1;
    let mut i: usize = 0;
    assert(digits@.take(0) =~= Seq::<u8>::empty());
    while i < digits.len()
        invariant
            i <= digits.len() <= COUNTER_DIGITS,
            forall|j: int| 0 <= j < i ==> is_digit(#[trigger] digits@[j]),
            value == decimal(digits@.take(i as int)),
            value < bound,
            i == 0 ==> bound == 1,
            i == 1 ==> bound == 10,
            i == 2 ==> bound == 100,
            i == 3 ==> bound == 1000,
            i == 4 ==> bound == 10000,
        decreases digits.len() - i,
    {
        let b = digits[i];
        if b < '0' as u8 || b > '9' as u8 {
            return None;
        }
        assert(digits@.take(i + 1).drop_last() =~= digits@.take(i as int));
        value = value * 10 + (b - '0' as u8) as u16;
        bound = bound * 10;
        i += 1;
    }
    assert(digits@.take(i as int) =~= digits@);
    Some(value)
}

/// What stands on the board of a well-formed position, and who is to move.
pub struct Layout {
    /// The squares of the board, rank by rank from the eighth down to the
    /// first, each a piece letter or `EMPTY`.
    pub board: Vec<Vec<u8>>,
    /// Whether White is to move.
    pub white_to_move: bool,
}

/// The squares of the board that the bytes describe.
pub open spec fn squares_in(fen: Seq<u8>) -> Seq<Seq<u8>> {
    placement_squares(split(fen, ' ' as u8)[0])
}

/// Whether the bytes say that White is to move.
pub open spec fn white_moves_in(fen: Seq<u8>) -> bool {
    split(fen, ' ' as u8)[1][0] == 'w' as u8
}

/// The layout is that of the position which the bytes describe.
pub open spec fn layout_of(layout: Layout, fen: Seq<u8>) -> bool {
    &&& eight_by_eight(layout.board@)
    &&& board_squares(layout.board@) == squares_in(fen)
    &&& layout.white_to_move == white_moves_in(fen)
}

/// Reads the bytes of a position: its layout where they are well formed,
/// nothing where they are not.
pub fn read_bytes(fen: &[u8]) -> (out: Option<Layout>)
    ensures
        out is Some <==> well_formed_bytes(fen@),
        out matches Some(layout) ==> layout_of(layout, fen@),
{
    let fields = split_fields(fen, ' ' as u8);
    if fields.len() != 6 {
        return None;
    }
    let board = match check_placement(fields[0]) {
        Some(board) => board,
        None => {
            return None;
        },
    };
    if !check_side(fields[1]) {
        return None;
    }
    let white_to_move = fields[1][0] == 'w' as u8;
    assert(board_squares(board@) =~= placement_squares(fields@[0]@));
    if bound_of_board(&board, white_to_move) > MOVE_LIMIT {
        return None;
    }
    if !check_castling(fields[2], &board, Ghost(fields@[0]@)) {
        return None;
    }
    if !check_en_passant(fields[3], &board, Ghost(fields@[0]@)) {
        return None;
    }
    if read_counter(fields[4]).is_none() {
        return None;
    }
    match read_counter(fields[5]) {
        Some(moves) => if moves >= 1 {
            Some(Layout { board, white_to_move })
        } else {
            None
        },
        None => None,
    }
}

/// Decides whether the bytes are a well-formed position.
pub fn bytes_well_formed(fen: &[u8]) -> (ok: bool)
    ensures
        ok == well_formed_bytes(fen@),
{
    read_bytes(fen).is_some()
}

/// Reads a position: its layout where the text is well formed, nothing where
/// it is not.
pub fn read_position(text: &str) -> (out: Option<Layout>)
    ensures
        out is Some <==> well_formed(text@),
        out matches Some(layout) ==> layout_of(layout, ascii_bytes(text@)),
{
    if !text.is_ascii() {
        return None;
    }
    proof {
        vstd::string::is_ascii_spec_bytes(text);
    }
    read_bytes(text.as_bytes())
}

/// Decides whether a text is a well-formed position.
pub fn is_well_formed(text: &str) -> (ok: bool)
    ensures
        ok == well_formed(text@),
{
    read_position(text).is_some()
}

/// A text without `sep` is a single piece.
pub proof fn lemma_split_whole(s: Seq<u8>, sep: u8)
    requires
        forall|i: int| 0 <= i < s.len() ==> s[i] != sep,
    ensures
        split(s, sep) == seq![s],
{
    s.index_of_first_ensures(sep);
}

/// The first piece of a text is what stands before its first `sep`, and the
/// other pieces are those of what stands behind it.
pub proof fn lemma_split_first(head: Seq<u8>, tail: Seq<u8>, sep: u8)
    requires
        forall|i: int| 0 <= i < head.len() ==> head[i] != sep,
    ensures
        split(head + seq![sep] + tail, sep) == seq![head] + split(tail, sep),
{
    let s = head + seq![sep] + tail;
    lemma_first_at(s, sep, head.len() as int);
    assert(s.take(head.len() as int) =~= head);
    assert(s.skip(head.len() as int + 1) =~= tail);
}

/// The occurrences in two texts add up in the text made of both.
pub proof fn lemma_count_concat(a: Seq<u8>, b: Seq<u8>, x: u8)
    ensures
        count(a + b, x) == count(a, x) + count(b, x),
    decreases b.len(),
{
    if b.len() == 0 {
        assert(a + b =~= a);
    } else {
        assert((a + b).drop_last() =~= a + b.drop_last());
        lemma_count_concat(a, b.drop_last(), x);
    }
}

/// The pieces put together again, with `sep` between every two of them.
pub open spec fn join(pieces: Seq<Seq<u8>>, sep: u8) -> Seq<u8>
    decreases pieces.len(),
{
    if pieces.len() == 0 {
        Seq::empty()
    } else if pieces.len() == 1 {
        pieces[0]
    } else {
        pieces[0] + seq![sep] + join(pieces.skip(1), sep)
    }
}

/// What `split` is: a text has at least one piece, no piece holds `sep`, and
/// the pieces joined by `sep` are the text.
pub proof fn split_is_undone_by_join(s: Seq<u8>, sep: u8)
    ensures
        split(s, sep).len() >= 1,
        forall|k: int, i: int|
            0 <= k < split(s, sep).len() && 0 <= i < split(s, sep)[k].len() ==> #[trigger] split(
                s,
                sep,
            )[k][i] != sep,
        join(split(s, sep), sep) == s,
    decreases s.len(),
{
    s.index_of_first_ensures(sep);
    match s.index_of_first(sep) {
        Some(n) => {
            let head = s.take(n);
            let tail = s.skip(n + 1);
            let pieces = split(s, sep);
            split_is_undone_by_join(tail, sep);
            assert(pieces =~= seq![head] + split(tail, sep));
            assert(pieces.skip(1) =~= split(tail, sep));
            assert(head + seq![sep] + tail =~= s);
            assert forall|k: int, i: int|
                0 <= k < pieces.len() && 0 <= i < pieces[k].len() implies #[trigger] pieces[k][i]
                != sep by {
                if k > 0 {
                    assert(pieces[k] == split(tail, sep)[k - 1]);
                }
            }
        },
        None => {
            assert(split(s, sep) =~= seq![s]);
        },
    }
}

} // verus!
