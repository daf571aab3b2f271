use cheshire_chess::board::{Color, Move, Position, BISHOP, KNIGHT, QUEEN, ROOK};
use cheshire_chess::engine::{find_best_move, personalities, Personality};
use cheshire_chess::identity::{client_id_from, format_client_id, is_valid_client_id, stored_client_id};
use cheshire_chess::minigames::{BlindFold, ColorQuiz, KnightTour};
use cheshire_chess::settings::Waveform;
use cheshire_chess::ui::{piece_art, piece_name};

#[test]
fn uci_roundtrip_on_every_square_pair_sample() {
    for from in 0..64u8 {
        for to in [0u8, 7, 27, 63] {
            for promo in [None, Some(QUEEN), Some(ROOK), Some(BISHOP), Some(KNIGHT)] {
                let m = Move { from, to, promotion: promo };
                assert_eq!(Move::from_uci(&m.to_uci()), Some(m));
            }
        }
    }
}

#[test]
fn legal_moves_never_leave_the_king_in_check() {
    let pos = Position::from_fen("r1bqk2r/pppp1ppp/2n2n2/2b1p3/2B1P3/5N2/PPPP1PPP/RNBQK2R w KQkq - 4 4").unwrap();
    for m in pos.legal_moves() {
        let next = pos.make_move(m);
        assert!(!next.in_check(Color::White));
        assert_eq!(next.side_to_move, Color::Black);
    }
}

#[test]
fn mate_and_stalemate_exclude_each_other() {
    for fen in [
        "k7/2Q5/1K6/8/8/8/8/8 b - - 0 1",
        "r1bqkb1r/pppp1Qpp/2n2n2/4p3/2B1P3/8/PPPP1PPP/RNB1K1NR b KQkq - 0 4",
    ] {
        let p = Position::from_fen(fen).unwrap();
        assert!(p.is_checkmate() != p.is_stalemate());
    }
}

#[test]
fn engine_picks_a_legal_move_and_takes_mate_in_one() {
    let ps = personalities();
    assert_eq!(ps.len(), 10);
    assert_eq!(ps[0].name, "Beginner");
    assert_eq!(ps[4].randomness, 0);
    let quick = Personality {
        name: "Quick",
        description: "Shallow and certain.",
        depth: 2,
        aggression: 10,
        randomness: 0,
    };
    // white to move: Qh5xf7 is mate
    let pos = Position::from_fen("r1bqkb1r/pppp1ppp/2n2n2/4p2Q/2B1P3/8/PPPP1PPP/RNB1K1NR w KQkq - 4 4").unwrap();
    let m = find_best_move(&pos, &quick).unwrap();
    assert!(pos.legal_moves().contains(&m));
    assert!(pos.make_move(m).is_checkmate());
    let mated = Position::from_fen("k7/2Q5/1K6/8/8/8/8/8 b - - 0 1").unwrap();
    assert_eq!(find_best_move(&mated, &ps[0]), None);
}

#[test]
fn client_ids_are_64_hex_digits() {
    let id = format_client_id(0, 1, 0xdeadbeef, u64::MAX);
    assert_eq!(id.len(), 64);
    assert_eq!(&id[0..16], "0000000000000000");
    assert_eq!(&id[16..32], "0000000000000001");
    assert_eq!(&id[32..48], "00000000deadbeef");
    assert_eq!(&id[48..64], "ffffffffffffffff");
    assert!(is_valid_client_id(&id));
    assert!(!is_valid_client_id("abc"));
    assert!(!is_valid_client_id(&"g".repeat(64)));
    assert_eq!(stored_client_id(&format!("  {id}\n")), Some(id.clone()));
    assert_eq!(stored_client_id("nope"), None);
}

#[test]
fn knight_tour_moves_and_undo() {
    let mut t = KnightTour::new(0);
    assert_eq!(t.visit_count, 1);
    let moves = t.legal_moves();
    assert_eq!(moves.len(), 2);
    assert!(t.try_move(17));
    assert!(!t.try_move(0));
    assert_eq!(t.visit_count, 2);
    t.undo();
    assert_eq!(t.knight_sq, 0);
    assert_eq!(t.visit_count, 1);
    assert!(!t.is_complete());
    assert!(!t.is_stuck());
}

#[test]
fn colour_quiz_and_blindfold() {
    let q = ColorQuiz::new();
    assert!(q.current_square < 64);
    let name = q.square_name();
    assert_eq!(name.len(), 2);
    let mut q2 = ColorQuiz::new();
    let light = q2.is_light();
    assert!(q2.guess(light));
    assert_eq!(q2.score, 1);
    assert_eq!(q2.streak, 1);
    let mut b = BlindFold::new();
    let h = b.hidden;
    b.toggle();
    assert_ne!(b.hidden, h);
}

#[test]
fn waveforms_cycle_and_pieces_have_names() {
    let w = Waveform::Sine;
    assert_eq!(w.next().next().next().next(), Waveform::Sine);
    assert_eq!(w.name(), "Sine");
    assert_eq!(piece_name(5), "King");
    assert_eq!(piece_art(5)[0], "  ╺+╸  ");
}

#[test]
fn a_push_onto_the_last_rank_promotes() {
    let pos = Position::from_fen("8/P7/8/8/8/8/8/k6K w - - 0 1").unwrap();
    let v = pos.legal_moves();
    assert_eq!(v.len(), 7);
    for p in [QUEEN, ROOK, BISHOP, KNIGHT] {
        assert!(v.contains(&Move::with_promotion(48, 56, p)));
    }
    for to in [6u8, 14, 15] {
        assert!(v.contains(&Move::new(7, to)));
    }
    let black = Position::from_fen("k6K/8/8/8/8/8/p7/8 b - - 0 1").unwrap();
    let v = black.legal_moves();
    for p in [QUEEN, ROOK, BISHOP, KNIGHT] {
        assert!(v.contains(&Move::with_promotion(8, 0, p)));
    }
}

#[test]
fn knight_tour_counts_its_visits() {
    let mut t = KnightTour::new(0);
    for to in [17u8, 34, 51, 61, 44] {
        assert!(t.try_move(to));
    }
    t.undo();
    t.undo();
    assert!(t.try_move(36));
    let visited = t.visited.iter().filter(|v| **v).count();
    assert_eq!(visited, t.visit_count);
    assert_eq!(t.visit_count, t.move_history.len());
    assert_eq!(t.knight_sq, *t.move_history.last().unwrap());
}

#[test]
fn fen_positions_have_consistent_boards() {
    for fen in [
        "rnbqkbnr/pppppppp/8/8/8/8/PPPPPPPP/RNBQKBNR w KQkq - 0 1",
        "r1bqk2r/pppp1ppp/2n2n2/2b1p3/2B1P3/5N2/PPPP1PPP/RNBQK2R w KQkq - 4 4",
        "8/P7/8/8/8/8/8/k6K w Kq - 0 1",
    ] {
        let p = Position::from_fen(fen).unwrap();
        for i in 0..6 {
            for j in (i + 1)..6 {
                assert_eq!(p.pieces[i] & p.pieces[j], 0);
            }
        }
        assert_eq!(p.colors[0] & p.colors[1], 0);
        let all = p.pieces.iter().fold(0u64, |a, b| a | b);
        assert_eq!(all, p.colors[0] | p.colors[1]);
        assert!(p.castling < 16);
    }
}

#[test]
fn legal_moves_keep_the_boards_consistent() {
    let mut p = Position::from_fen("r3k2r/pppq1ppp/2np1n2/2b1p3/2B1P1b1/2NP1N2/PPPQ1PPP/R3K2R w KQkq - 0 1").unwrap();
    for _ in 0..6 {
        let moves = p.legal_moves();
        // castle when possible, else take the last move on offer
        let mv = moves.iter().copied().find(|m| m.from == 4 || m.from == 60).unwrap_or(moves[moves.len() - 1]);
        p = p.make_move(mv);
        for i in 0..6 {
            for j in (i + 1)..6 {
                assert_eq!(p.pieces[i] & p.pieces[j], 0);
            }
        }
        assert_eq!(p.colors[0] & p.colors[1], 0);
        let all = p.pieces.iter().fold(0u64, |a, b| a | b);
        assert_eq!(all, p.colors[0] | p.colors[1]);
    }
}

#[test]
fn a_capture_takes_exactly_one_enemy_piece() {
    let pos = Position::from_fen("4k3/8/8/3p4/4P3/8/8/4K3 w - - 0 1").unwrap();
    let capture = Move::new(28, 35);
    assert!(pos.legal_moves().contains(&capture));
    let next = pos.make_move(capture);
    assert_eq!(next.colors[0].count_ones(), pos.colors[0].count_ones());
    assert_eq!(next.colors[1].count_ones() + 1, pos.colors[1].count_ones());
    let quiet = Move::new(28, 36);
    let next = pos.make_move(quiet);
    assert_eq!(next.colors[0].count_ones(), pos.colors[0].count_ones());
    assert_eq!(next.colors[1].count_ones(), pos.colors[1].count_ones());
    // castling keeps the mover's count too
    let pos = Position::from_fen("r3k2r/8/8/8/8/8/8/R3K2R w KQkq - 0 1").unwrap();
    let castle = Move::new(4, 6);
    assert!(pos.legal_moves().contains(&castle));
    let next = pos.make_move(castle);
    assert_eq!(next.colors[0].count_ones(), 3);
    assert_eq!(next.colors[1].count_ones(), 3);
}

#[test]
fn a_new_identity_is_valid_and_depends_on_its_inputs() {
    let a = client_id_from(1_700_000_000_000_000_000, "host", 42);
    assert!(is_valid_client_id(&a));
    assert_eq!(a, client_id_from(1_700_000_000_000_000_000, "host", 42));
    assert_ne!(a, client_id_from(1_700_000_000_000_000_001, "host", 42));
    assert_ne!(a, client_id_from(1_700_000_000_000_000_000, "hosu", 42));
    assert_ne!(a, client_id_from(1_700_000_000_000_000_000, "host", 43));
}

#[test]
fn positions_reached_by_play_stay_sound() {
    let mut pos = Position::start();
    // a short game with a capture, castling and an en passant chance
    for uci in ["e2e4", "d7d5", "e4d5", "g8f6", "g1f3", "c7c5", "f1e2", "a7a6", "e1g1", "e7e5", "d5e6"] {
        let m = Move::from_uci(uci).unwrap();
        assert!(pos.legal_moves().contains(&m), "{uci}");
        let white_before = pos.colors[0].count_ones();
        let black_before = pos.colors[1].count_ones();
        let mover = if pos.side_to_move == Color::White { 0 } else { 1 };
        let takes = pos.colors[1 - mover] & (1u64 << m.to) != 0 || pos.en_passant == Some(m.to);
        pos = pos.make_move(m);
        // boards agree
        for i in 0..6 {
            for j in (i + 1)..6 {
                assert_eq!(pos.pieces[i] & pos.pieces[j], 0);
            }
        }
        assert_eq!(pos.colors[0] & pos.colors[1], 0);
        let all = pos.pieces.iter().fold(0u64, |a, b| a | b);
        assert_eq!(all, pos.colors[0] | pos.colors[1]);
        // one king each
        assert_eq!((pos.pieces[5] & pos.colors[0]).count_ones(), 1);
        assert_eq!((pos.pieces[5] & pos.colors[1]).count_ones(), 1);
        // counts
        let (mine, theirs) = if mover == 0 {
            (pos.colors[0].count_ones(), pos.colors[1].count_ones())
        } else {
            (pos.colors[1].count_ones(), pos.colors[0].count_ones())
        };
        let (mine0, theirs0) = if mover == 0 { (white_before, black_before) } else { (black_before, white_before) };
        assert_eq!(mine, mine0);
        assert_eq!(theirs + u32::from(takes), theirs0);
    }
    // the en passant capture took the pawn beside the landing square
    assert_eq!(pos.colors[1].count_ones(), 14);
}

#[test]
fn every_piece_row_is_one_square_wide() {
    for pt in 0..8 {
        for row in piece_art(pt) {
            assert_eq!(row.chars().count(), 7, "{pt}: {row:?}");
        }
    }
    assert_eq!(piece_art(3)[1], " │▐▌ │ ");
}
