use cheshire_chess::protocol::{ChatKind, ClientMsg, ServerMsg, TimeControl};
use cheshire_chess::server::{position_to_fen, Delivery, ServerState};
use cheshire_chess::board::Position;

fn step(s: &mut ServerState, pid: u32, msg: ClientMsg) -> Vec<Delivery> {
    let mut out = Vec::new();
    assert!(s.can_handle(pid, &msg));
    s.handle_msg(pid, msg, &mut out);
    out
}

fn connect(s: &mut ServerState) -> u32 {
    let mut out = Vec::new();
    let id = s.connect(&mut out);
    assert_eq!(out.len(), 1);
    assert_eq!(out[0].to, vec![id]);
    match &out[0].msg {
        ServerMsg::Welcome { your_id } => assert_eq!(*your_id, id),
        other => panic!("unexpected {other:?}"),
    }
    id
}

/// Two players in one room, the first at a table of its own.
fn room_with_table() -> (ServerState, u32, u32, u32) {
    let mut s = ServerState::new();
    let a = connect(&mut s);
    let b = connect(&mut s);
    step(&mut s, a, ClientMsg::CreateRoom { name: "Club".to_string() });
    let rid = s.rooms[0].id;
    step(&mut s, b, ClientMsg::JoinRoom { room_id: rid });
    step(&mut s, a, ClientMsg::CreateTable { time_control: TimeControl::Minutes(5) });
    (s, a, b, rid)
}

#[test]
fn connect_gives_fresh_ids_and_default_names() {
    let mut s = ServerState::new();
    let a = connect(&mut s);
    let b = connect(&mut s);
    assert_eq!(a, 1);
    assert_eq!(b, 2);
    assert_eq!(s.player_name(a), "Player1");
    assert_eq!(s.player_name(b), "Player2");
}

#[test]
fn create_room_answers_room_joined() {
    let mut s = ServerState::new();
    let a = connect(&mut s);
    let out = step(&mut s, a, ClientMsg::CreateRoom { name: "Club".to_string() });
    assert_eq!(out.len(), 1);
    assert_eq!(out[0].to, vec![a]);
    match &out[0].msg {
        ServerMsg::RoomJoined { room, players, tables } => {
            assert_eq!(room.name, "Club");
            assert_eq!(room.player_count, 1);
            assert_eq!(players.len(), 1);
            assert_eq!(players[0].id, a);
            assert!(tables.is_empty());
        }
        other => panic!("unexpected {other:?}"),
    }
    assert_eq!(s.rooms[0].moderator, a);
}

#[test]
fn join_missing_room_is_refused() {
    let mut s = ServerState::new();
    let a = connect(&mut s);
    let out = step(&mut s, a, ClientMsg::JoinRoom { room_id: 99 });
    assert_eq!(out.len(), 1);
    match &out[0].msg {
        ServerMsg::Error { msg } => assert_eq!(msg, "Room not found"),
        other => panic!("unexpected {other:?}"),
    }
}

#[test]
fn join_room_announces_the_newcomer() {
    let mut s = ServerState::new();
    let a = connect(&mut s);
    let b = connect(&mut s);
    step(&mut s, a, ClientMsg::CreateRoom { name: "Club".to_string() });
    let rid = s.rooms[0].id;
    let out = step(&mut s, b, ClientMsg::JoinRoom { room_id: rid });
    assert_eq!(out.len(), 3);
    assert_eq!(out[1].to, vec![a]);
    match &out[2].msg {
        ServerMsg::ChatMessage { body, kind, .. } => {
            assert_eq!(body, "Player2 joined");
            assert_eq!(*kind, ChatKind::System);
        }
        other => panic!("unexpected {other:?}"),
    }
    assert_eq!(out[2].to, vec![a, b]);
}

#[test]
fn second_player_at_table_starts_the_game() {
    let (mut s, a, b, _rid) = room_with_table();
    let tid = s.tables[0].id;
    let out = step(&mut s, b, ClientMsg::JoinTable { table_id: tid });
    assert!(s.tables[0].game_active);
    assert_eq!(s.tables[0].white, Some(a));
    assert_eq!(s.tables[0].black, Some(b));
    let started = out.iter().any(|d| matches!(&d.msg,
        ServerMsg::GameStarted { white, black, time_control, .. }
            if *white == a && *black == b && *time_control == TimeControl::Minutes(5)));
    assert!(started);
}

#[test]
fn moves_are_checked_for_turn_and_legality() {
    let (mut s, a, b, _rid) = room_with_table();
    let tid = s.tables[0].id;
    step(&mut s, b, ClientMsg::JoinTable { table_id: tid });
    let out = step(&mut s, b, ClientMsg::MakeMove { uci: "e7e5".to_string() });
    assert!(matches!(&out[0].msg, ServerMsg::Error { msg } if msg == "Not your turn"));
    let out = step(&mut s, a, ClientMsg::MakeMove { uci: "e2e5".to_string() });
    assert!(matches!(&out[0].msg, ServerMsg::Error { msg } if msg == "Illegal move"));
    let out = step(&mut s, a, ClientMsg::MakeMove { uci: "zz".to_string() });
    assert!(matches!(&out[0].msg, ServerMsg::Error { msg } if msg == "Bad move format"));
    let out = step(&mut s, a, ClientMsg::MakeMove { uci: "e2e4".to_string() });
    match &out[0].msg {
        ServerMsg::MoveMade { uci, fen, .. } => {
            assert_eq!(uci, "e2e4");
            assert_eq!(fen, "rnbqkbnr/pppppppp/8/8/4P3/8/PPPP1PPP/RNBQKBNR b KQkq - 0 1");
        }
        other => panic!("unexpected {other:?}"),
    }
}

#[test]
fn no_game_means_no_moves() {
    let (mut s, a, _b, _rid) = room_with_table();
    let out = step(&mut s, a, ClientMsg::MakeMove { uci: "e2e4".to_string() });
    assert!(matches!(&out[0].msg, ServerMsg::Error { msg } if msg == "No active game"));
}

#[test]
fn fools_mate_ends_the_game() {
    let (mut s, a, b, _rid) = room_with_table();
    let tid = s.tables[0].id;
    step(&mut s, b, ClientMsg::JoinTable { table_id: tid });
    step(&mut s, a, ClientMsg::MakeMove { uci: "f2f3".to_string() });
    step(&mut s, b, ClientMsg::MakeMove { uci: "e7e5".to_string() });
    step(&mut s, a, ClientMsg::MakeMove { uci: "g2g4".to_string() });
    let out = step(&mut s, b, ClientMsg::MakeMove { uci: "d8h4".to_string() });
    let over = out.iter().any(|d| matches!(&d.msg,
        ServerMsg::GameOver { reason, winner, .. } if reason == "Checkmate" && *winner == Some(b)));
    assert!(over);
    assert!(!s.tables[0].game_active);
}

#[test]
fn rematch_swaps_colours() {
    let (mut s, a, b, _rid) = room_with_table();
    let tid = s.tables[0].id;
    step(&mut s, b, ClientMsg::JoinTable { table_id: tid });
    step(&mut s, a, ClientMsg::Resign);
    assert!(!s.tables[0].game_active);
    let out = step(&mut s, a, ClientMsg::Rematch);
    assert_eq!(s.tables[0].white, Some(b));
    assert_eq!(s.tables[0].black, Some(a));
    assert!(s.tables[0].game_active);
    match &out[1].msg {
        ServerMsg::ChatMessage { body, .. } => assert_eq!(body, "Rematch! Player2 (W) vs Player1 (B)"),
        other => panic!("unexpected {other:?}"),
    }
}

#[test]
fn resign_names_the_other_player_winner() {
    let (mut s, a, b, _rid) = room_with_table();
    let tid = s.tables[0].id;
    step(&mut s, b, ClientMsg::JoinTable { table_id: tid });
    let out = step(&mut s, a, ClientMsg::Resign);
    assert!(matches!(&out[0].msg,
        ServerMsg::GameOver { reason, winner, .. } if reason == "Player1 resigned" && *winner == Some(b)));
}

#[test]
fn chat_reaches_the_whole_room() {
    let (mut s, a, b, _rid) = room_with_table();
    let out = step(&mut s, b, ClientMsg::SendChat { body: "hi".to_string() });
    assert_eq!(out.len(), 1);
    assert_eq!(out[0].to, vec![a, b]);
    assert!(matches!(&out[0].msg,
        ServerMsg::ChatMessage { sender, body, kind }
            if sender == "Player2" && body == "hi" && *kind == ChatKind::Player));
}

#[test]
fn last_player_leaving_removes_room_and_tables() {
    let (mut s, a, b, _rid) = room_with_table();
    step(&mut s, b, ClientMsg::LeaveRoom);
    assert_eq!(s.rooms[0].player_ids, vec![a]);
    let mut out = Vec::new();
    s.disconnect(a, &mut out);
    assert!(s.rooms.is_empty());
    assert!(s.tables.is_empty());
    assert_eq!(s.players.len(), 1);
}

#[test]
fn leaving_mid_game_hands_the_win_over() {
    let (mut s, a, b, _rid) = room_with_table();
    let tid = s.tables[0].id;
    step(&mut s, b, ClientMsg::JoinTable { table_id: tid });
    let out = step(&mut s, b, ClientMsg::LeaveTable);
    assert!(matches!(&out[0].msg,
        ServerMsg::GameOver { reason, winner, .. } if reason == "Player2 left the table" && *winner == Some(a)));
    assert_eq!(s.tables[0].black, None);
    assert!(!s.tables[0].game_active);
}

#[test]
fn only_the_moderator_sets_the_main_board() {
    let (mut s, a, b, _rid) = room_with_table();
    let out = step(&mut s, b, ClientMsg::MainBoardMove { uci: "e2e4".to_string() });
    assert!(out.is_empty());
    let out = step(&mut s, a, ClientMsg::MainBoardMove { uci: "e2e4".to_string() });
    assert!(matches!(&out[0].msg, ServerMsg::MainBoardUpdate { fen, .. }
        if fen == "rnbqkbnr/pppppppp/8/8/4P3/8/PPPP1PPP/RNBQKBNR b KQkq - 0 1"));
}

#[test]
fn list_rooms_reports_counts() {
    let (mut s, a, _b, _rid) = room_with_table();
    let out = step(&mut s, a, ClientMsg::ListRooms);
    match &out[0].msg {
        ServerMsg::RoomList { rooms } => {
            assert_eq!(rooms.len(), 1);
            assert_eq!(rooms[0].player_count, 2);
            assert_eq!(rooms[0].table_count, 1);
            assert_eq!(rooms[0].active_games, 0);
        }
        other => panic!("unexpected {other:?}"),
    }
}

#[test]
fn start_position_fen() {
    assert_eq!(
        position_to_fen(&Position::start()),
        "rnbqkbnr/pppppppp/8/8/8/8/PPPPPPPP/RNBQKBNR w KQkq - 0 1"
    );
}

#[test]
fn fen_reads_back_the_board() {
    for fen in [
        "r1bqkb1r/pppp1Qpp/2n2n2/4p3/2B1P3/8/PPPP1PPP/RNB1K1NR b KQkq - 0 4",
        "rnbqkbnr/ppp1pppp/8/3pP3/8/8/PPPP1PPP/RNBQKBNR w KQkq d6 0 3",
        "k7/2Q5/1K6/8/8/8/8/8 b - - 0 1",
        "8/8/8/8/8/8/8/8 w - - 0 1",
    ] {
        let p = Position::from_fen(fen).unwrap();
        let text = position_to_fen(&p);
        let q = Position::from_fen(&text).unwrap();
        assert_eq!(q.side_to_move, p.side_to_move);
        for sq in 0..64u8 {
            assert_eq!(q.piece_at(sq), p.piece_at(sq));
        }
    }
    let p = Position::from_fen("k7/2Q5/1K6/8/8/8/8/8 b - - 0 1").unwrap();
    assert_eq!(position_to_fen(&p), "k7/2Q5/1K6/8/8/8/8/8 b KQkq - 0 1");
}

#[test]
fn written_fen_is_written_again_unchanged() {
    for fen in [
        "rnbqkbnr/pppppppp/8/8/8/8/PPPPPPPP/RNBQKBNR w KQkq - 0 1",
        "r1bqk2r/pppp1ppp/2n2n2/2b1p3/2B1P3/5N2/PPPP1PPP/RNBQK2R b KQkq - 0 1",
        "8/8/8/8/8/8/8/8 w KQkq - 0 1",
    ] {
        let p = Position::from_fen(fen).unwrap();
        assert_eq!(position_to_fen(&p), fen);
    }
}

#[test]
fn a_placement_with_adjacent_digits_is_written_canonically() {
    let p = Position::from_fen("rnbqkbnr/pppppppp/44/8/8/8/PPPPPPPP/RNBQKBNR w KQkq - 0 1").unwrap();
    assert_eq!(position_to_fen(&p), "rnbqkbnr/pppppppp/8/8/8/8/PPPPPPPP/RNBQKBNR w KQkq - 0 1");
}
