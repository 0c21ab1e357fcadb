//! The game session: one chess game, driven move by move.
//!
//! The session keeps no position. Its caller hands in the current position
//! with every call and gets back the next one, or the marker of a finished
//! game. The search for a move is not done here: [`ChessEngine::play_move`]
//! and [`ChessEngine::get_move`] say what to ask of the search, and
//! [`ChessEngine::complete_move`] and [`ChessEngine::proposed_move`] decide
//! what becomes of its answer.

use crate::fen::{read_position, well_formed};
use crate::mobility::squares_of_side;
use crate::opening::{opening_position_is_well_formed, OPENING_POSITION};
use crate::rules::{
    accepts, after_move, attackers_of_idle_king, board_after, board_checkmate, board_moves,
    in_checkmate, legal_moves, opening_position, playable,
};
use vstd::prelude::*;

verus! {

/// What `play_move` returns in place of a position once the game is over.
pub const END_GAME: &'static str = "endgame";

/// The depth to which an easy game searches.
pub const EASY_DEPTH: u16 = 10;

/// The number of moves within which a hard game looks for a mate.
pub const HARD_MATE: u16 = 5;

/// The difficulty of a game.
#[derive(Clone, Copy, Debug, PartialEq, Eq, Structural)]
pub enum GameMode {
    Easy,
    Hard,
}

/// The bound under which a move is searched: a depth, or a mate within a
/// number of moves, never both.
#[derive(Clone, Copy, Debug, PartialEq, Eq, Structural)]
pub struct SearchLimits {
    pub depth: Option<u16>,
    pub mate: Option<u16>,
}

/// Why a call of the session failed.
#[derive(Clone, Copy, Debug, PartialEq, Eq, Structural)]
pub enum EngineError {
    /// The move that the search proposed is not legal in the position.
    InvalidMove,
    /// The position, or the one that the proposed move leads to, is not one
    /// that a move can be played from.
    MalformedPosition,
}

/// What is asked of the search: a move for `position` under `limits`.
#[derive(Debug, PartialEq, Eq)]
pub struct SearchRequest {
    pub position: String,
    pub limits: SearchLimits,
}

/// What the session has decided before any search.
#[derive(Debug, PartialEq, Eq)]
pub enum Step {
    /// A move has to be searched for.
    Search(SearchRequest),
    /// The call is over, with this result.
    Done(Result<String, EngineError>),
}

/// A `Step` with its texts as sequences of characters.
pub enum StepView {
    Search { position: Seq<char>, limits: SearchLimits },
    Done(Result<Seq<char>, EngineError>),
}

/// The result of a call with its text as a sequence of characters.
pub open spec fn result_view(result: Result<String, EngineError>) -> Result<
    Seq<char>,
    EngineError,
> {
    match result {
        Ok(text) => Ok(text@),
        Err(error) => Err(error),
    }
}

impl View for Step {
    type V = StepView;

    open spec fn view(&self) -> StepView {
        match *self {
            Step::Search(request) => StepView::Search {
                position: request.position@,
                limits: request.limits,
            },
            Step::Done(result) => StepView::Done(result_view(result)),
        }
    }
}

impl EngineError {
    /// The error in words.
    pub fn describe(&self) -> (text: &'static str)
        ensures
            *self == EngineError::InvalidMove ==> text@ == "invalid move"@,
            *self == EngineError::MalformedPosition ==> text@ == "malformed position"@,
    {
        match self {
            EngineError::InvalidMove => "invalid move",
            EngineError::MalformedPosition => "malformed position",
        }
    }
}

impl SearchLimits {
    /// At most one of the two bounds is set.
    pub open spec fn well_formed(&self) -> bool {
        self.depth is None || self.mate is None
    }
}

/// The limits of a search to a fixed depth.
pub open spec fn depth_only(depth: u16) -> SearchLimits {
    SearchLimits { depth: Some(depth), mate: None }
}

/// The limits that a difficulty stands for.
pub open spec fn limits_for(mode: GameMode) -> SearchLimits {
    match mode {
        GameMode::Easy => depth_only(EASY_DEPTH),
        GameMode::Hard => SearchLimits { depth: None, mate: Some(HARD_MATE) },
    }
}

/// What `play_move` decides in a game of difficulty `mode`.
pub open spec fn play_step(mode: GameMode, current: Seq<char>) -> StepView {
    if !playable(current) {
        StepView::Done(Err(EngineError::MalformedPosition))
    } else if board_checkmate(current) {
        StepView::Done(Ok(END_GAME@))
    } else {
        StepView::Search { position: current, limits: limits_for(mode) }
    }
}

/// What `get_move` decides.
pub open spec fn analysis_step(current: Seq<char>, depth: u16) -> StepView {
    if !playable(current) {
        StepView::Done(Err(EngineError::MalformedPosition))
    } else {
        StepView::Search { position: current, limits: depth_only(depth) }
    }
}

/// What becomes of the move that the search proposed for `current`. A legal
/// move that mates ends the game. Any other legal move gives the position
/// after it, if that is a position from which the game can go on.
pub open spec fn resolution(current: Seq<char>, candidate: Seq<char>) -> Result<
    Seq<char>,
    EngineError,
> {
    if !playable(current) {
        Err(EngineError::MalformedPosition)
    } else if board_checkmate(current) {
        Ok(END_GAME@)
    } else if !board_moves(current).contains(candidate) {
        Err(EngineError::InvalidMove)
    } else if board_after(current, candidate).1 {
        Ok(END_GAME@)
    } else if !playable(board_after(current, candidate).0) {
        Err(EngineError::MalformedPosition)
    } else {
        Ok(board_after(current, candidate).0)
    }
}

/// A game session.
pub struct ChessEngine {
    game_mode: GameMode,
}

impl ChessEngine {
    /// The difficulty of the session.
    pub closed spec fn mode(&self) -> GameMode {
        self.game_mode
    }

    /// A session for an easy game.
    pub fn new() -> (engine: Self)
        ensures
            engine.mode() == GameMode::Easy,
    {
        ChessEngine { game_mode: GameMode::Easy }
    }

    /// A session for a game of the given difficulty.
    pub fn with_mode(game_mode: GameMode) -> (engine: Self)
        ensures
            engine.mode() == game_mode,
    {
        ChessEngine { game_mode }
    }

    /// The difficulty of the session.
    pub fn game_mode(&self) -> (mode: GameMode)
        ensures
            mode == self.mode(),
    {
        self.game_mode
    }

    /// The limits under which the session has its moves searched.
    pub fn search_limits(&self) -> (limits: SearchLimits)
        ensures
            limits == limits_for(self.mode()),
            limits.well_formed(),
    {
        match self.game_mode {
            GameMode::Easy => SearchLimits { depth: Some(EASY_DEPTH), mate: None },
            GameMode::Hard => SearchLimits { depth: None, mate: Some(HARD_MATE) },
        }
    }

    /// The position with which the game starts. The session stays as it is.
    pub fn start_game(&self) -> (position: String)
        ensures
            position@ == OPENING_POSITION@,
            well_formed(position@),
    {
        proof {
            opening_position_is_well_formed();
        }
        opening_position()
    }

    /// Looks at the current position before any search. A position that no
    /// move can be played from is refused, a position in checkmate ends the
    /// game, and for any other a move is to be searched under the limits of
    /// the session.
    pub fn play_move(&self, fen_str: String) -> (step: Step)
        ensures
            step@ == play_step(self.mode(), fen_str@),
    {
        if !is_valid_position(fen_str.as_str()) {
            return Step::Done(Err(EngineError::MalformedPosition));
        }
        if in_checkmate(fen_str.as_str()) {
            return Step::Done(Ok(END_GAME.to_owned()));
        }
        let limits = self.search_limits();
        Step::Search(SearchRequest { position: fen_str, limits })
    }

    /// Takes the move that the search proposed for the current position. The
    /// move is played only if it is legal; the result is the marker of a
    /// finished game where it mates, and else the position after it. Every
    /// position that comes back is one that the session takes as the next
    /// current position: where the move leads to none, the call fails.
    pub fn complete_move(&self, fen_str: String, candidate: String) -> (result: Result<
        String,
        EngineError,
    >)
        ensures
            result_view(result) == resolution(fen_str@, candidate@),
            result matches Ok(next) ==> next@ == END_GAME@ || playable(next@),
    {
        if !is_valid_position(fen_str.as_str()) {
            return Err(EngineError::MalformedPosition);
        }
        if in_checkmate(fen_str.as_str()) {
            return Ok(END_GAME.to_owned());
        }
        if !is_valid_move(fen_str.as_str(), candidate.as_str()) {
            return Err(EngineError::InvalidMove);
        }
        let next = after_move(fen_str.as_str(), candidate.as_str());
        if next.1 {
            return Ok(END_GAME.to_owned());
        }
        if !is_valid_position(next.0.as_str()) {
            return Err(EngineError::MalformedPosition);
        }
        Ok(next.0)
    }

    /// Looks at a position for which a move is wanted, searched to the given
    /// depth whatever the difficulty of the session. A position that no move
    /// can be played from is refused; for any other the search is asked for.
    pub fn get_move(&self, fen: String, depth: u16) -> (step: Step)
        ensures
            step@ == analysis_step(fen@, depth),
    {
        if !is_valid_position(fen.as_str()) {
            return Step::Done(Err(EngineError::MalformedPosition));
        }
        let limits = SearchLimits { depth: Some(depth), mate: None };
        Step::Search(SearchRequest { position: fen, limits })
    }

    /// The answer of `get_move` once the search has proposed a move: the move
    /// as it stands, neither checked against the position nor played.
    pub fn proposed_move(&self, candidate: String) -> (encoding: String)
        ensures
            encoding@ == candidate@,
    {
        candidate
    }
}

/// A fresh session for an easy game.
pub fn init() -> (engine: ChessEngine)
    ensures
        engine.mode() == GameMode::Easy,
{
    ChessEngine::new()
}

/// Whether a move can be played from the position.
pub fn is_valid_position(fen: &str) -> (ok: bool)
    ensures
        ok == playable(fen@),
{
    match read_position(fen) {
        Some(layout) => {
            let movers = squares_of_side(&layout.board, layout.white_to_move);
            accepts(fen) && (attackers_of_idle_king(fen) & movers) == 0
        },
        None => false,
    }
}

/// Whether the move is among the legal moves of the position.
pub fn is_valid_move(fen: &str, mov: &str) -> (ok: bool)
    requires
        playable(fen@),
    ensures
        ok == board_moves(fen@).contains(mov@),
{
    let all_moves = legal_moves(fen);
    let wanted = mov.to_owned();
    let mut i: usize = 0;
    while i < all_moves.len()
        invariant
            i <= all_moves.len(),
            wanted@ == mov@,
            all_moves@.len() == board_moves(fen@).len(),
            forall|k: int|
                0 <= k < all_moves@.len() ==> (#[trigger] all_moves@[k])@ == board_moves(fen@)[k],
            forall|k: int| 0 <= k < i ==> board_moves(fen@)[k] != mov@,
        decreases all_moves.len() - i,
    {
        if all_moves[i] == wanted {
            assert(board_moves(fen@)[i as int] == mov@);
            return true;
        }
        i += 1;
    }
    false
}

/// A position in checkmate ends the game whatever the difficulty: no move
/// is searched for, and whatever move is proposed, the result is the marker
/// of a finished game.
pub proof fn checkmate_ends_the_game(mode: GameMode, current: Seq<char>, candidate: Seq<char>)
    requires
        playable(current),
        board_checkmate(current),
    ensures
        play_step(mode, current) == StepView::Done(Ok(END_GAME@)),
        resolution(current, candidate) == Ok::<Seq<char>, EngineError>(END_GAME@),
{
}

/// A position that comes back from a move is the current position with one
/// legal move played: the proposed move is among the legal moves of the
/// current position, and the result is the position after it.
pub proof fn returned_position_follows_a_legal_move(
    current: Seq<char>,
    candidate: Seq<char>,
    next: Seq<char>,
)
    requires
        resolution(current, candidate) == Ok::<Seq<char>, EngineError>(next),
        next != END_GAME@,
    ensures
        playable(current),
        board_moves(current).contains(candidate),
        next == board_after(current, candidate).0,
        !board_after(current, candidate).1,
{
}

/// A position that comes back from a move is one from which the game goes
/// on: handed in as the current position, it is not refused, whatever the
/// difficulty and whatever is asked.
pub proof fn returned_position_is_taken_back(
    mode: GameMode,
    current: Seq<char>,
    candidate: Seq<char>,
    next: Seq<char>,
    depth: u16,
)
    requires
        resolution(current, candidate) == Ok::<Seq<char>, EngineError>(next),
        next != END_GAME@,
    ensures
        playable(next),
        play_step(mode, next) != StepView::Done(Err(EngineError::MalformedPosition)),
        analysis_step(next, depth) is Search,
{
}

/// An easy game has its moves searched to depth 10 with no bound on a mate,
/// a hard game for a mate in 5 with no bound on the depth. Whenever a search
/// is asked for in a game, it is for the current position under these limits.
pub proof fn search_is_bound_by_the_mode(mode: GameMode, current: Seq<char>)
    ensures
        limits_for(GameMode::Easy) == (SearchLimits { depth: Some(10u16), mate: None }),
        limits_for(GameMode::Hard) == (SearchLimits { depth: None, mate: Some(5u16) }),
        limits_for(mode).well_formed(),
        play_step(mode, current) is Search ==> play_step(mode, current)
            == (StepView::Search { position: current, limits: limits_for(mode) }),
{
}

/// A proposed move that is not among the legal moves of a position in play
/// fails the call, and no position comes back.
pub proof fn illegal_move_is_rejected(current: Seq<char>, candidate: Seq<char>)
    requires
        playable(current),
        !board_checkmate(current),
        !board_moves(current).contains(candidate),
    ensures
        resolution(current, candidate) == Err::<Seq<char>, EngineError>(EngineError::InvalidMove),
{
}

/// What the session decides before the search stands whatever the search
/// proposes.
pub proof fn decision_stands(mode: GameMode, current: Seq<char>, candidate: Seq<char>)
    requires
        play_step(mode, current) is Done,
    ensures
        play_step(mode, current) == StepView::Done(resolution(current, candidate)),
{
}

/// A position that no move can be played from is refused by every call,
/// before any search.
pub proof fn malformed_position_is_refused(
    mode: GameMode,
    current: Seq<char>,
    candidate: Seq<char>,
    depth: u16,
)
    requires
        !playable(current),
    ensures
        play_step(mode, current) == StepView::Done(Err(EngineError::MalformedPosition)),
        analysis_step(current, depth) == StepView::Done(Err(EngineError::MalformedPosition)),
        resolution(current, candidate) == Err::<Seq<char>, EngineError>(
            EngineError::MalformedPosition,
        ),
{
}

} // verus!
