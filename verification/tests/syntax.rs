use fendermint_vm_chess_engine::fen::{bytes_well_formed, is_well_formed};

const OPENING: &str = "rnbqkbnr/pppppppp/8/8/8/8/PPPPPPPP/RNBQKBNR w KQkq - 0 1";

/// The opening position with one field replaced.
fn with_field(index: usize, field: &str) -> String {
    let mut fields: Vec<&str> = OPENING.split(' ').collect();
    fields[index] = field;
    fields.join(" ")
}

#[test]
fn opening_position_is_well_formed() {
    assert!(is_well_formed(OPENING));
    assert!(bytes_well_formed(OPENING.as_bytes()));
}

#[test]
fn six_fields_are_needed() {
    assert!(!is_well_formed(""));
    assert!(!is_well_formed(" "));
    assert!(!is_well_formed("rnbqkbnr/pppppppp/8/8/8/8/PPPPPPPP/RNBQKBNR w KQkq -"));
    assert!(!is_well_formed("rnbqkbnr/pppppppp/8/8/8/8/PPPPPPPP/RNBQKBNR w KQkq - 0"));
    assert!(!is_well_formed("rnbqkbnr/pppppppp/8/8/8/8/PPPPPPPP/RNBQKBNR w KQkq - 0 1 1"));
}

#[test]
fn fields_are_separated_by_single_spaces() {
    assert!(!is_well_formed(" rnbqkbnr/pppppppp/8/8/8/8/PPPPPPPP/RNBQKBNR w KQkq - 0 1"));
    assert!(!is_well_formed("rnbqkbnr/pppppppp/8/8/8/8/PPPPPPPP/RNBQKBNR w KQkq - 0 1 "));
    assert!(!is_well_formed("rnbqkbnr/pppppppp/8/8/8/8/PPPPPPPP/RNBQKBNR w  KQkq - 0 1"));
    assert!(!is_well_formed("rnbqkbnr/pppppppp/8/8/8/8/PPPPPPPP/RNBQKBNR\tw KQkq - 0 1"));
    assert!(!is_well_formed("rnbqkbnr/pppppppp/8/8/8/8/PPPPPPPP/RNBQKBNR w KQkq - 0 1\n"));
}

#[test]
fn placement_has_eight_ranks_of_eight_squares() {
    assert!(is_well_formed(&with_field(0, "rnbqkbnr/pppppppp/8/8/8/8/PPPPPPPP/RNBQKBNR")));
    assert!(is_well_formed(&with_field(0, "rnbqkbnr/pppppppp/44/8/8/8/PPPPPPPP/RNBQKBNR")));
    assert!(is_well_formed(&with_field(0, "rnbqkbnr/pp1ppppp/8/2p5/4P3/5N2/PPPP1PPP/RNBQKB1R")));
    assert!(!is_well_formed(&with_field(0, "rnbqkbnr/pppppppp/8/8/8/8/PPPPPPPP")));
    assert!(!is_well_formed(&with_field(0, "rnbqkbnr/pppppppp/8/8/8/8/8/PPPPPPPP/RNBQKBNR")));
    assert!(!is_well_formed(&with_field(0, "rnbqkbnr/pppppppp/7/8/8/8/PPPPPPPP/RNBQKBNR")));
    assert!(!is_well_formed(&with_field(0, "rnbqkbnr/pppppppp/9/8/8/8/PPPPPPPP/RNBQKBNR")));
    assert!(!is_well_formed(&with_field(0, "rnbqkbnr/pppppppp/08/8/8/8/PPPPPPPP/RNBQKBNR")));
    assert!(!is_well_formed(&with_field(0, "rnbqkbnr/pppppppp/8/8/8/8/PPPPPPPPP/RNBQKBNR")));
    assert!(!is_well_formed(&with_field(0, "rnbqkbnr/pppppppp/8/8/8/8/PPPPPPPP/RNBQKBNR/")));
    assert!(!is_well_formed(&with_field(0, "rnbqkbnr/pppppppp//8/8/8/PPPPPPPP/RNBQKBNR")));
    assert!(!is_well_formed(&with_field(0, "rnbqkbnr/pppppppp/8/8/8/8/PPPPPPPP/RNBQKBXR")));
}

#[test]
fn each_side_has_one_king() {
    assert!(is_well_formed("8/k7/8/8/8/8/8/K7 w - - 0 1"));
    assert!(!is_well_formed("8/8/8/8/8/8/8/8 w - - 0 1"));
    assert!(!is_well_formed("8/k7/8/8/8/8/8/8 w - - 0 1"));
    assert!(!is_well_formed("8/8/8/8/8/8/8/K7 w - - 0 1"));
    assert!(!is_well_formed("8/kk6/8/8/8/8/8/K7 w - - 0 1"));
    assert!(!is_well_formed("8/k7/8/8/8/8/8/K6K w - - 0 1"));
}

#[test]
fn side_is_white_or_black() {
    assert!(is_well_formed(&with_field(1, "w")));
    assert!(is_well_formed(&with_field(1, "b")));
    assert!(!is_well_formed(&with_field(1, "W")));
    assert!(!is_well_formed(&with_field(1, "wb")));
    assert!(!is_well_formed(&with_field(1, "-")));
}

#[test]
fn castling_rights_are_in_order_and_match_the_placement() {
    for rights in [
        "-", "K", "Q", "k", "q", "KQ", "Kk", "Kq", "Qk", "Qq", "kq", "KQk", "KQq", "Kkq", "Qkq",
        "KQkq",
    ] {
        assert!(is_well_formed(&with_field(2, rights)), "{}", rights);
    }
    for rights in ["", "--", "QK", "kK", "KK", "KQkqK", "KQkq-", "-K", "A", "Kx", "qkQK"] {
        assert!(!is_well_formed(&with_field(2, rights)), "{}", rights);
    }
    assert!(is_well_formed("4k2r/8/8/8/8/8/8/R3K3 w Qk - 0 1"));
    assert!(!is_well_formed("4k2r/8/8/8/8/8/8/R3K3 w K - 0 1"));
    assert!(!is_well_formed("4k2r/8/8/8/8/8/8/R3K3 w q - 0 1"));
    assert!(!is_well_formed("4k3/8/8/8/8/8/8/K6R w K - 0 1"));
    assert!(!is_well_formed("4k3/8/8/8/8/8/8/4K2r w K - 0 1"));
    assert!(!is_well_formed("R3k3/8/8/8/8/8/8/4K2R w q - 0 1"));
    assert!(!is_well_formed("r2k4/8/8/8/8/8/8/4K2R w q - 0 1"));
}

#[test]
fn en_passant_target_is_an_empty_square_of_rank_three_or_six() {
    assert!(is_well_formed(&with_field(3, "-")));
    for file in ["a", "b", "c", "d", "e", "f", "g", "h"] {
        assert!(is_well_formed(&with_field(3, &format!("{}3", file))));
        assert!(is_well_formed(&with_field(3, &format!("{}6", file))));
        assert!(!is_well_formed(&with_field(3, &format!("{}4", file))));
        assert!(!is_well_formed(&with_field(3, &format!("{}2", file))));
    }
    for target in ["", "e", "3", "i3", "e33", "E3", "--", "-3"] {
        assert!(!is_well_formed(&with_field(3, target)), "{}", target);
    }
    assert!(is_well_formed("rnbqkbnr/ppp1pppp/8/8/3pP3/2P5/PP1P1PPP/RNBQKBNR b KQkq e3 0 3"));
    assert!(!is_well_formed("rnbqkbnr/ppp1pppp/8/8/3pP3/2P5/PP1P1PPP/RNBQKBNR b KQkq c3 0 3"));
    assert!(!is_well_formed("rnbqkbnr/pppp1ppp/4N3/3Pp3/8/8/PPP1PPPP/RNBQKB1R w KQkq e6 0 3"));
}

#[test]
fn counters_are_one_to_four_digits() {
    for counter in ["0", "7", "00", "50", "099", "150", "9999"] {
        assert!(is_well_formed(&with_field(4, counter)), "{}", counter);
    }
    for counter in ["1", "01", "0001", "124", "9999"] {
        assert!(is_well_formed(&with_field(5, counter)), "{}", counter);
    }
    for counter in ["", "-", "-1", "+1", "1.", "10000", "00000", "1a", "١"] {
        assert!(!is_well_formed(&with_field(4, counter)), "{}", counter);
        assert!(!is_well_formed(&with_field(5, counter)), "{}", counter);
    }
    for counter in ["0", "00", "000", "0000"] {
        assert!(!is_well_formed(&with_field(5, counter)), "{}", counter);
    }
}

#[test]
fn text_outside_ascii_is_not_well_formed() {
    assert!(!is_well_formed("rnbqkbnr/pppppppp/8/8/8/8/PPPPPPPP/RNBQKBNR w KQkq \u{2013} 0 1"));
    assert!(!is_well_formed("rnbqkbnr/pppppppp/8/8/8/8/PPPPPPPP/RNBQKBNR\u{a0}w KQkq - 0 1"));
    assert!(!bytes_well_formed(&[0xff, 0x20, 0x77]));
}
