use fendermint_vm_chess_engine::engine::{
    is_valid_position, ChessEngine, EngineError, END_GAME,
};
use fendermint_vm_chess_engine::fen::{is_well_formed, read_position};
use fendermint_vm_chess_engine::mobility::{bound_of_board, MOVE_LIMIT};
use pleco::Board;

/// A small generator of numbers, the same on every run.
fn next(state: &mut u64) -> u64 {
    *state ^= *state << 13;
    *state ^= *state >> 7;
    *state ^= *state << 17;
    *state
}

/// Writes a run of empty squares, now and then as more than one digit.
fn push_gap(text: &mut String, gap: u64, state: &mut u64) {
    let mut left = gap;
    while left > 0 {
        let part = if next(state) % 8 == 0 { 1 + next(state) % left } else { left };
        text.push_str(&part.to_string());
        left -= part;
    }
}

/// A position with the two kings and up to `crowd` other pieces on squares
/// picked by `state`, now and then with the kings and rooks at home and with
/// a pawn that has just advanced two squares.
fn random_position(state: &mut u64, crowd: u64) -> String {
    let mut squares = [' '; 64];
    let home = next(state) % 3 == 0;
    let wk = if home { 60 } else { (next(state) % 64) as usize };
    let mut bk = if home { 4 } else { (next(state) % 64) as usize };
    while bk == wk {
        bk = (next(state) % 64) as usize;
    }
    squares[wk] = 'K';
    squares[bk] = 'k';
    if home {
        for (sq, rook) in [(63, 'R'), (56, 'R'), (7, 'r'), (0, 'r')] {
            if next(state) % 4 != 0 {
                squares[sq] = rook;
            }
        }
    }
    let pieces = ['P', 'N', 'B', 'R', 'Q', 'p', 'n', 'b', 'r', 'q'];
    let count = next(state) % crowd;
    for _ in 0..count {
        let sq = (next(state) % 64) as usize;
        if squares[sq] == ' ' {
            squares[sq] = pieces[(next(state) % 10) as usize];
        }
    }
    let white_to_move = next(state) % 2 == 0;
    let mut target = String::from("-");
    if next(state) % 2 == 0 {
        // a pawn that has just advanced two squares, where the squares allow it
        let file = (next(state) % 8) as usize;
        let (pawn_sq, mid_sq, home_sq, pawn, rank_char) = if white_to_move {
            (3 * 8 + file, 2 * 8 + file, 8 + file, 'p', '6')
        } else {
            (4 * 8 + file, 5 * 8 + file, 6 * 8 + file, 'P', '3')
        };
        let free = |c: char| c != 'K' && c != 'k';
        if free(squares[pawn_sq]) && free(squares[mid_sq]) && free(squares[home_sq]) {
            squares[pawn_sq] = pawn;
            squares[mid_sq] = ' ';
            squares[home_sq] = ' ';
            target = format!("{}{}", (b'a' + file as u8) as char, rank_char);
            if file > 0 && next(state) % 2 == 0 && free(squares[pawn_sq - 1]) {
                squares[pawn_sq - 1] = if white_to_move { 'P' } else { 'p' };
            }
            if file < 7 && next(state) % 2 == 0 && free(squares[pawn_sq + 1]) {
                squares[pawn_sq + 1] = if white_to_move { 'P' } else { 'p' };
            }
        }
    }
    if target == "-" && next(state) % 4 == 0 {
        // any empty square of the third or sixth rank, whatever stands near it
        let file = (next(state) % 8) as usize;
        let (row, rank_char) = if next(state) % 2 == 0 { (2, '6') } else { (5, '3') };
        if squares[row * 8 + file] == ' ' {
            target = format!("{}{}", (b'a' + file as u8) as char, rank_char);
        }
    }
    let mut text = String::new();
    for rank in 0..8 {
        if rank > 0 {
            text.push('/');
        }
        let mut gap: u64 = 0;
        for file in 0..8 {
            let c = squares[rank * 8 + file];
            if c == ' ' {
                gap += 1;
            } else {
                push_gap(&mut text, gap, state);
                gap = 0;
                text.push(c);
            }
        }
        push_gap(&mut text, gap, state);
    }
    text.push(' ');
    text.push(if white_to_move { 'w' } else { 'b' });
    text.push(' ');
    let mut rights = String::new();
    if squares[60] == 'K' && squares[63] == 'R' && next(state) % 2 == 0 {
        rights.push('K');
    }
    if squares[60] == 'K' && squares[56] == 'R' && next(state) % 2 == 0 {
        rights.push('Q');
    }
    if squares[4] == 'k' && squares[7] == 'r' && next(state) % 2 == 0 {
        rights.push('k');
    }
    if squares[4] == 'k' && squares[0] == 'r' && next(state) % 2 == 0 {
        rights.push('q');
    }
    if rights.is_empty() {
        rights.push('-');
    }
    text.push_str(&rights);
    text.push(' ');
    text.push_str(&target);
    text.push(' ');
    text.push_str(&(next(state) % 10000).to_string());
    text.push(' ');
    if next(state) % 8 == 0 {
        text.push('0');
    }
    text.push_str(&(1 + next(state) % 999).to_string());
    text
}

/// Plays every legal move of `rounds` positions through the session and holds
/// each answer against the board of the rules.
fn run(seed: u64, rounds: usize, crowd: u64) -> (usize, usize) {
    let engine = ChessEngine::new();
    let mut state = seed;
    let mut valid = 0;
    let mut played = 0;
    for _ in 0..rounds {
        let position = random_position(&mut state, crowd);
        assert!(is_well_formed(&position), "{}", position);
        if !is_valid_position(&position) {
            continue;
        }
        valid += 1;
        let board = Board::from_fen(&position).unwrap();
        let layout = read_position(&position).unwrap();
        let bound = bound_of_board(&layout.board, layout.white_to_move);
        assert!(board.generate_moves().len() as u32 <= bound, "{}", position);
        assert!(bound <= MOVE_LIMIT, "{}", position);
        let mate = board.checkmate();
        for mov in board.generate_moves().iter() {
            let mut after = Board::from_fen(&position).unwrap();
            after.apply_move(*mov);
            let expected = if mate || after.checkmate() {
                Ok(END_GAME.to_string())
            } else if is_valid_position(&after.fen()) {
                Ok(after.fen())
            } else {
                Err(EngineError::MalformedPosition)
            };
            if expected.is_ok() {
                played += 1;
            }
            assert_eq!(
                engine.complete_move(position.clone(), mov.stringify()),
                expected,
                "{}",
                position
            );
        }
    }
    (valid, played)
}

#[test]
fn sparse_positions_are_played_as_the_rules_play_them() {
    let (valid, played) = run(0x1234_5678_9abc_def1, 3000, 6);
    assert!(valid > 1000 && played > 10000, "{} {}", valid, played);
}

#[test]
fn middling_positions_are_played_as_the_rules_play_them() {
    let (valid, played) = run(0x0fed_cba9_8765_4321, 3000, 20);
    assert!(valid > 500 && played > 8000, "{} {}", valid, played);
}

#[test]
fn crowded_positions_are_played_as_the_rules_play_them() {
    let (valid, played) = run(0x1357_9bdf_0246_8ace, 4000, 70);
    assert!(valid > 200 && played > 4000, "{} {}", valid, played);
}
