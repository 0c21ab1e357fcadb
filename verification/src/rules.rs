//! The rules of chess, taken from the `pleco` crate.
//!
//! Move generation and mate detection are not written here: every function
//! of this module hands a position to `pleco` and reports what it says.
//! None of their contracts is proved. Each one gives what `pleco` computes a
//! name, so that the session can say exactly which of these results it
//! returns, and asks of its caller what keeps `pleco` within what it can
//! handle: a well-formed position has one king of each colour, castling
//! rights and an en-passant target that fit the board, counters that leave
//! room for a move, and for the side to move no more than `MOVE_LIMIT`
//! moves, where `pleco` collects the moves in a list of at least that length
//! and does not look at its end.

use crate::fen::{ascii_bytes, squares_in, well_formed, white_moves_in};
use crate::mobility::side_squares;
use crate::opening::OPENING_POSITION;
use pleco::Board;
use vstd::prelude::*;

verus! {

/// Whether `pleco::Board::from_fen` builds a board from the position.
pub uninterp spec fn board_accepts(fen: Seq<char>) -> bool;

/// The squares from which `pleco::Board::attackers_to` finds the king of the
/// side that is not to move attacked, by a piece of either side: one bit for
/// each square, bit 0 for a1, bit 1 for b1, and so on up to bit 63 for h8.
pub uninterp spec fn idle_king_attackers(fen: Seq<char>) -> u64;

/// The squares on which the side to move has a piece, with the same bits.
pub open spec fn mover_squares(fen: Seq<char>) -> u64 {
    side_squares(squares_in(ascii_bytes(fen)), white_moves_in(ascii_bytes(fen)), 64)
}

/// What `pleco::Board::checkmate` says of the position.
pub uninterp spec fn board_checkmate(fen: Seq<char>) -> bool;

/// The moves that `pleco::Board::generate_moves` lists for the position,
/// each written by `pleco::BitMove::stringify`.
pub uninterp spec fn board_moves(fen: Seq<char>) -> Seq<Seq<char>>;

/// The position that `pleco::Board::apply_uci_move` leads to, written by
/// `pleco::Board::fen`, and what `pleco::Board::checkmate` says of it.
pub uninterp spec fn board_after(fen: Seq<char>, mov: Seq<char>) -> (Seq<char>, bool);

/// The side that has just moved left its king where a piece of the side to
/// move attacks it.
pub open spec fn king_exposed(fen: Seq<char>) -> bool {
    (idle_king_attackers(fen) & mover_squares(fen)) != 0
}

/// A position that a move can be played from: it is well formed, `pleco`
/// builds a board from it, and the side that has just moved did not leave
/// its king under attack.
pub open spec fn playable(fen: Seq<char>) -> bool {
    well_formed(fen) && board_accepts(fen) && !king_exposed(fen)
}

/// Calls `pleco::Board::start_pos` and `pleco::Board::fen`. Trusted: the
/// board of the start position is written as `OPENING_POSITION`.
#[verifier::external_body]
pub(crate) fn opening_position() -> (fen: String)
    ensures
        fen@ == OPENING_POSITION@,
{
    Board::start_pos().fen()
}

/// Calls `pleco::Board::from_fen`. Trusted: on a well-formed position it
/// returns, with a board or with an error, and which of the two depends on
/// the position alone.
#[verifier::external_body]
pub(crate) fn accepts(fen: &str) -> (ok: bool)
    requires
        well_formed(fen@),
    ensures
        ok == board_accepts(fen@),
{
    Board::from_fen(fen).is_ok()
}

/// Calls `pleco::Board::attackers_to` on the square of the king of the side
/// that is not to move. Trusted: on a board that `pleco` built the call
/// returns, and its result depends on the position alone.
#[verifier::external_body]
pub(crate) fn attackers_of_idle_king(fen: &str) -> (squares: u64)
    requires
        well_formed(fen@),
        board_accepts(fen@),
    ensures
        squares == idle_king_attackers(fen@),
{
    let board = Board::from_fen(fen).unwrap();
    let king = board.king_sq(board.turn().other_player());
    board.attackers_to(king, board.occupied()).0
}

/// Calls `pleco::Board::checkmate`. Trusted: on a playable position the call
/// returns, and its result depends on the position alone. It generates moves
/// only for a side in check.
#[verifier::external_body]
pub(crate) fn in_checkmate(fen: &str) -> (mate: bool)
    requires
        playable(fen@),
    ensures
        mate == board_checkmate(fen@),
{
    Board::from_fen(fen).unwrap().checkmate()
}

/// Calls `pleco::Board::generate_moves` and writes each move with
/// `pleco::BitMove::stringify`. Trusted: on a playable position the call
/// returns, and the list depends on the position alone. The generator
/// writes the moves into a list of 248 entries or more without looking at
/// its end; a playable position is well formed, so the side to move has at
/// most `MOVE_LIMIT` moves, each of them a move of one of its pieces that
/// the bound counts.
#[verifier::external_body]
pub(crate) fn legal_moves(fen: &str) -> (moves: Vec<String>)
    requires
        playable(fen@),
    ensures
        moves@.len() == board_moves(fen@).len(),
        forall|i: int| 0 <= i < moves@.len() ==> (#[trigger] moves@[i])@ == board_moves(fen@)[i],
{
    let board = Board::from_fen(fen).unwrap();
    board.generate_moves().iter().map(|m| m.stringify()).collect()
}

/// Calls `pleco::Board::apply_uci_move`, then `pleco::Board::fen` and
/// `pleco::Board::checkmate` on the board that it changed. Trusted: for a
/// move that `pleco` lists for a playable position the calls return, and
/// their results depend on the position and the move alone. The first call
/// generates the moves of the position as `legal_moves` does, within the
/// same bound; the last generates moves only for a side in check, which
/// are far fewer.
#[verifier::external_body]
pub(crate) fn after_move(fen: &str, mov: &str) -> (next: (String, bool))
    requires
        playable(fen@),
        board_moves(fen@).contains(mov@),
    ensures
        (next.0@, next.1) == board_after(fen@, mov@),
{
    let mut board = Board::from_fen(fen).unwrap();
    board.apply_uci_move(mov);
    (board.fen(), board.checkmate())
}

} // verus!
