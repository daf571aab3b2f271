use cheshire_chess::board::Position;
use cheshire_chess::client::{Client, Cue, Effect, Key, Screen};
use cheshire_chess::protocol::{
    ChatKind, ClientMsg, PlayerInfo, PlayerStatus, RoomInfo, ServerMsg, TableInfo, TimeControl,
};
use cheshire_chess::puzzle::Puzzle;

fn room(id: u32) -> RoomInfo {
    RoomInfo { id, name: "Club".to_string(), player_count: 1, table_count: 0, active_games: 0 }
}

fn table(id: u32) -> TableInfo {
    TableInfo {
        id,
        white: None,
        black: None,
        spectator_count: 0,
        has_game: false,
        time_control: TimeControl::Unlimited,
    }
}

fn welcomed() -> Client {
    let mut c = Client::new("Ann".to_string());
    let fx = c.on_server_msg(ServerMsg::Welcome { your_id: 7 });
    assert_eq!(fx.len(), 2);
    assert!(matches!(&fx[0], Effect::Send(ClientMsg::SetName { name }) if name == "Ann"));
    assert!(matches!(&fx[1], Effect::Send(ClientMsg::ListRooms)));
    c
}

#[test]
fn welcome_moves_to_the_room_browser() {
    let c = welcomed();
    assert_eq!(c.my_id, Some(7));
    assert_eq!(c.screen, Screen::RoomBrowser);
    assert_eq!(c.message, "Connected as Ann. Browse rooms or create one.");
}

#[test]
fn lobby_lists_follow_the_server() {
    let mut c = welcomed();
    c.on_server_msg(ServerMsg::RoomJoined { room: room(3), players: vec![], tables: vec![table(1)] });
    assert_eq!(c.screen, Screen::RoomLobby);
    c.on_server_msg(ServerMsg::PlayerJoined {
        player: PlayerInfo { id: 8, name: "Bo".to_string(), status: PlayerStatus::Idle, table_id: None },
    });
    assert_eq!(c.room_players.len(), 1);
    c.on_server_msg(ServerMsg::PlayerLeft { player_id: 8 });
    assert!(c.room_players.is_empty());
    c.on_server_msg(ServerMsg::TableCreated { table: table(2) });
    let mut t2 = table(2);
    t2.spectator_count = 4;
    c.on_server_msg(ServerMsg::TableUpdated { table: t2 });
    assert_eq!(c.tables[1].spectator_count, 4);
    c.on_server_msg(ServerMsg::TableRemoved { table_id: 1 });
    assert_eq!(c.tables.len(), 1);
    assert_eq!(c.tables[0].id, 2);
    c.on_server_msg(ServerMsg::ChatMessage {
        sender: "Bo".to_string(),
        body: "hi".to_string(),
        kind: ChatKind::Player,
    });
    assert_eq!(c.chat.messages.len(), 1);
    c.on_server_msg(ServerMsg::Error { msg: "Table not found".to_string() });
    assert_eq!(c.message, "Server: Table not found");
}

#[test]
fn a_live_game_runs_on_server_messages() {
    let mut c = welcomed();
    let start = "rnbqkbnr/pppppppp/8/8/8/8/PPPPPPPP/RNBQKBNR w KQkq - 0 1".to_string();
    c.on_server_msg(ServerMsg::TableJoined { table: table(4), fen: start.clone() });
    assert_eq!(c.screen, Screen::LiveGame);
    assert_eq!(c.current_table, Some(4));
    c.on_server_msg(ServerMsg::GameStarted {
        table_id: 4,
        white: 7,
        black: 8,
        fen: start,
        time_control: TimeControl::Unlimited,
    });
    assert_eq!(c.message, "Game started! You are White.");
    assert!(c.is_my_turn());
    assert!(c.am_playing());
    // select the e2 pawn and play e2e4
    c.cursor = 12;
    let fx = c.live_key(Key::Enter);
    assert!(fx.is_empty());
    assert_eq!(c.selected_sq, Some(12));
    assert_eq!(c.highlights, vec![20, 28]);
    for _ in 0..2 {
        c.live_key(Key::Char('k'));
    }
    assert_eq!(c.cursor, 28);
    let fx = c.live_key(Key::Enter);
    assert!(matches!(&fx[0], Effect::Send(ClientMsg::MakeMove { uci }) if uci == "e2e4"));
    assert_eq!(c.message, "Move sent...");
    let fx = c.on_server_msg(ServerMsg::MoveMade {
        table_id: 4,
        uci: "e2e4".to_string(),
        fen: "rnbqkbnr/pppppppp/8/8/4P3/8/PPPP1PPP/RNBQKBNR b KQkq - 0 1".to_string(),
        white_time_ms: 0,
        black_time_ms: 0,
    });
    assert!(matches!(&fx[0], Effect::Play(Cue::Move)));
    assert_eq!(c.message, "Opponent's turn...");
    let fx = c.on_server_msg(ServerMsg::GameOver {
        table_id: 4,
        reason: "Checkmate".to_string(),
        winner: Some(7),
    });
    assert!(matches!(&fx[0], Effect::Play(Cue::Checkmate)));
    assert_eq!(c.message, "Checkmate \u{2014} You win! Press Esc to return.");
    assert!(!c.game_active);
    let fx = c.live_key(Key::Esc);
    assert!(matches!(&fx[0], Effect::Send(ClientMsg::LeaveTable)));
    assert_eq!(c.screen, Screen::RoomLobby);
}

#[test]
fn chat_typing_sends_a_line() {
    let mut c = welcomed();
    c.on_server_msg(ServerMsg::RoomJoined { room: room(3), players: vec![], tables: vec![] });
    c.lobby_key(Key::Tab);
    assert!(c.chat.typing);
    c.lobby_key(Key::Char('h'));
    c.lobby_key(Key::Char('o'));
    c.lobby_key(Key::Backspace);
    c.lobby_key(Key::Char('i'));
    let fx = c.lobby_key(Key::Enter);
    assert!(matches!(&fx[0], Effect::Send(ClientMsg::SendChat { body }) if body == "hi"));
    assert_eq!(c.chat.input, "");
    c.lobby_key(Key::Esc);
    assert!(!c.chat.typing);
    let fx = c.lobby_key(Key::Char('t'));
    assert!(matches!(&fx[0],
        Effect::Send(ClientMsg::CreateTable { time_control }) if *time_control == TimeControl::Unlimited));
}

#[test]
fn menu_navigation_and_choices() {
    let mut c = Client::new("Ann".to_string());
    c.menu_key(Key::Up, false, false);
    assert_eq!(c.menu_selection, 0);
    c.menu_key(Key::Enter, false, false);
    assert_eq!(c.message, "No puzzles loaded. Place lichess_puzzles.csv in data/");
    c.menu_key(Key::Char('j'), false, false);
    c.menu_key(Key::Enter, false, false);
    assert_eq!(c.screen, Screen::Analysis);
    c.analysis_key(Key::Left);
    assert_eq!(c.cursor, 27);
    c.analysis_key(Key::Esc);
    assert_eq!(c.screen, Screen::Menu);
    c.menu_key(Key::Down, false, false);
    let fx = c.menu_key(Key::Enter, false, false);
    assert!(matches!(&fx[0], Effect::GoOnline));
    for _ in 0..5 {
        c.menu_key(Key::Down, false, false);
    }
    assert_eq!(c.menu_selection, 4);
    c.menu_key(Key::Enter, false, false);
    assert!(!c.running);
}

#[test]
fn room_browser_keys() {
    let mut c = welcomed();
    c.on_server_msg(ServerMsg::RoomList { rooms: vec![room(3)] });
    let fx = c.browser_key(Key::Enter, 2);
    assert!(matches!(&fx[0], Effect::Send(ClientMsg::JoinRoom { room_id }) if *room_id == 3));
    c.browser_key(Key::Down, 2);
    c.browser_key(Key::Down, 2);
    c.browser_key(Key::Down, 2);
    assert_eq!(c.room_selection, 2);
    let fx = c.browser_key(Key::Enter, 2);
    assert!(matches!(&fx[0], Effect::ConnectRemote(1)));
    let fx = c.browser_key(Key::Char('n'), 2);
    assert!(matches!(&fx[0], Effect::Send(ClientMsg::CreateRoom { name }) if name == "Ann's room"));
}

fn mate_in_one() -> Puzzle {
    // after black's h7h6, white mates with Qd1h5? use the scholar's line instead
    Puzzle {
        id: "m1".to_string(),
        fen: "r1bqkbnr/pppp1ppp/2n5/4p2Q/2B1P3/8/PPPP1PPP/RNB1K1NR b KQkq - 3 3".to_string(),
        moves: vec!["g8f6".to_string(), "h5f7".to_string()],
        rating: 800,
        themes: vec!["mateIn1".to_string()],
    }
}

#[test]
fn a_puzzle_is_solved_with_its_line() {
    let mut c = Client::new("Ann".to_string());
    c.start_puzzles(vec![mate_in_one()], "Mate in 1");
    assert_eq!(c.screen, Screen::Puzzle);
    assert_eq!(c.message, "Puzzle 1/1 (rating: 800) \u{2014} Play as White. Select a piece.");
    assert_eq!(c.puzzle_move_index, 1);
    // hint shows the move
    let fx = c.puzzle_key(Key::Char('H'));
    assert!(matches!(&fx[0], Effect::Play(Cue::Hint)));
    assert_eq!(c.message, "Hint: h5f7");
    assert_eq!(c.highlights, vec![39, 53]);
    // a wrong move first
    c.cursor = 39;
    c.puzzle_key(Key::Enter);
    c.cursor = 47;
    let fx = c.puzzle_key(Key::Enter);
    assert!(matches!(&fx[0], Effect::Play(Cue::Wrong)));
    // then the right one
    c.cursor = 39;
    c.puzzle_key(Key::Enter);
    c.cursor = 53;
    let fx = c.puzzle_key(Key::Enter);
    assert!(matches!(&fx[0], Effect::Play(Cue::Checkmate)));
    assert_eq!(c.message, "Correct! Puzzle solved! Press [n] for next.");
    assert_eq!(c.score_correct, 1);
    assert!(c.board.is_checkmate());
    c.puzzle_key(Key::Char('n'));
    assert_eq!(c.screen, Screen::Results);
    assert_eq!(c.message, "Session complete! 1/2 correct.");
}

#[test]
fn empty_theme_is_reported() {
    let mut c = Client::new("Ann".to_string());
    c.start_puzzles(vec![], "Pin");
    assert_eq!(c.message, "No puzzles found for 'Pin'");
    assert_eq!(c.board.pieces, Position::start().pieces);
    assert_eq!(c.board.colors, Position::start().colors);
}

#[test]
fn the_cursor_stays_on_the_board() {
    let mut c = Client::new("Ann".to_string());
    c.menu_selection = 1;
    c.menu_key(Key::Enter, false, false);
    assert_eq!(c.screen, Screen::Analysis);
    assert_eq!(c.cursor, 28);
    for _ in 0..10 {
        c.analysis_key(Key::Left);
        c.analysis_key(Key::Char('j'));
    }
    assert_eq!(c.cursor, 0);
    for _ in 0..10 {
        c.analysis_key(Key::Right);
        c.analysis_key(Key::Up);
    }
    assert_eq!(c.cursor, 63);
}

#[test]
fn control_c_or_q_quits_anywhere() {
    let mut c = Client::new("Ann".to_string());
    assert!(!c.quit_key(Key::Char('c'), false));
    assert!(c.running);
    assert!(!c.quit_key(Key::Char('x'), true));
    assert!(c.running);
    assert!(c.quit_key(Key::Char('q'), true));
    assert!(!c.running);
}

#[test]
fn the_menu_lists_its_five_entries() {
    assert_eq!(
        cheshire_chess::client::menu_items(),
        ["Practice Tactics", "View Starting Position", "Go Online", "Settings", "Quit"]
    );
    assert_eq!(cheshire_chess::client::MENU_LEN, 5);
}
