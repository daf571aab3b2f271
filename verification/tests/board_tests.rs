use cheshire_chess::board::{
    knight_attacks, Color, Move, Position, BLACK, KING, PAWN, QUEEN, WHITE,
};

#[test]
fn test_start_position() {
    let pos = Position::start();
    assert!(pos.pieces[KING] & pos.colors[WHITE] & (1u64 << 4) != 0);
    assert!(pos.pieces[KING] & pos.colors[BLACK] & (1u64 << 60) != 0);
    assert_eq!(pos.colors[WHITE].count_ones(), 16);
    assert_eq!(pos.colors[BLACK].count_ones(), 16);
}

#[test]
fn test_piece_at() {
    let pos = Position::start();
    assert_eq!(pos.piece_at(4), Some((KING, Color::White)));
    assert_eq!(pos.piece_at(60), Some((KING, Color::Black)));
    assert_eq!(pos.piece_at(28), None);
}

#[test]
fn test_start_legal_moves() {
    let pos = Position::start();
    let moves = pos.legal_moves();
    // 20 legal moves in starting position: 16 pawn + 4 knight
    assert_eq!(moves.len(), 20);
}

#[test]
fn test_uci_parse() {
    let mv = Move::from_uci("e2e4").unwrap();
    assert_eq!(mv.from, 12); // e2
    assert_eq!(mv.to, 28); // e4
    assert_eq!(mv.promotion, None);

    let mv = Move::from_uci("a7a8q").unwrap();
    assert_eq!(mv.promotion, Some(QUEEN));
}

#[test]
fn test_uci_roundtrip() {
    let mv = Move::new(12, 28);
    assert_eq!(mv.to_uci(), "e2e4");
    let mv = Move::with_promotion(52, 60, QUEEN);
    assert_eq!(mv.to_uci(), "e7e8q");
}

#[test]
fn test_make_move() {
    let pos = Position::start();
    let mv = Move::from_uci("e2e4").unwrap();
    let new_pos = pos.make_move(mv);
    // Pawn on e4 now
    assert!(new_pos.pieces[PAWN] & (1u64 << 28) != 0);
    // No pawn on e2
    assert!(new_pos.pieces[PAWN] & (1u64 << 12) == 0);
    // Black to move
    assert_eq!(new_pos.side_to_move, Color::Black);
    // En passant on e3
    assert_eq!(new_pos.en_passant, Some(20));
}

#[test]
fn test_in_check() {
    // Scholar's mate position — black king in check
    let pos = Position::from_fen(
        "r1bqkb1r/pppp1Qpp/2n2n2/4p3/2B1P3/8/PPPP1PPP/RNB1K1NR b KQkq - 0 4",
    )
    .unwrap();
    assert!(pos.in_check(Color::Black));
    assert!(pos.is_checkmate());
}

#[test]
fn test_not_checkmate() {
    let pos = Position::start();
    assert!(!pos.is_checkmate());
    assert!(!pos.is_stalemate());
}

#[test]
fn test_castling() {
    // Position where white can castle kingside
    let pos = Position::from_fen(
        "r1bqk2r/pppp1ppp/2n2n2/2b1p3/2B1P3/5N2/PPPP1PPP/RNBQK2R w KQkq - 4 4",
    )
    .unwrap();
    let moves = pos.legal_moves();
    let castle = moves.iter().find(|m| m.from == 4 && m.to == 6);
    assert!(castle.is_some(), "Kingside castling should be legal");
}

#[test]
fn test_en_passant() {
    // White pawn on e5, black just played d7d5
    let pos = Position::from_fen(
        "rnbqkbnr/ppp1pppp/8/3pP3/8/8/PPPP1PPP/RNBQKBNR w KQkq d6 0 3",
    )
    .unwrap();
    let moves = pos.legal_moves();
    let ep = moves.iter().find(|m| m.from == 36 && m.to == 43); // e5 to d6
    assert!(ep.is_some(), "En passant should be legal");
}

#[test]
fn test_knight_attacks() {
    // Knight on e4 (sq 28) should attack 8 squares
    let attacks = knight_attacks(28);
    assert_eq!(attacks.count_ones(), 8);
    // Knight on a1 (sq 0) should attack 2 squares
    let attacks = knight_attacks(0);
    assert_eq!(attacks.count_ones(), 2);
}

#[test]
fn test_stalemate() {
    // King vs King + Queen, black king in corner, stalemate
    let pos = Position::from_fen("k7/2Q5/1K6/8/8/8/8/8 b - - 0 1").unwrap();
    assert!(pos.is_stalemate());
}
