use cheshire_chess::canvas::EMPTY_GRID;
use cheshire_chess::protocol::{PlayerInfo, PlayerRef, PlayerStatus, RoomInfo, TableInfo, TimeControl};
use cheshire_chess::ui::{
    chat_line, chat_skip, halo, palette_scroll, player_line, room_line, square_label, square_shade,
    table_line, Shade,
};

#[test]
fn squares_are_shaded_by_what_is_on_them() {
    assert_eq!(square_shade(0, 0, None, &[]), Shade::Cursor);
    assert_eq!(square_shade(0, 5, Some(0), &[0]), Shade::Selected);
    assert_eq!(square_shade(20, 5, Some(0), &[3, 20]), Shade::Highlight);
    assert_eq!(square_shade(0, 5, None, &[]), Shade::Dark);
    assert_eq!(square_shade(1, 5, None, &[]), Shade::Light);
    assert_eq!(square_shade(63, 5, None, &[]), Shade::Dark);
    assert_eq!(square_label(0), "a1");
    assert_eq!(square_label(28), "e4");
    assert_eq!(square_label(63), "h8");
}

#[test]
fn halos_surround_drawn_cells() {
    let mut g = EMPTY_GRID;
    g[1][3] = '█';
    assert!(halo(&g, 0, 3));
    assert!(halo(&g, 2, 3));
    assert!(halo(&g, 1, 2));
    assert!(halo(&g, 1, 4));
    assert!(!halo(&g, 1, 3));
    assert!(!halo(&g, 0, 2));
    assert!(!halo(&g, 0, 0));
}

#[test]
fn scrolling_keeps_the_end_in_view() {
    assert_eq!(chat_skip(3, 10), 0);
    assert_eq!(chat_skip(25, 10), 15);
    assert_eq!(palette_scroll(5, 10, 4), 0);
    assert_eq!(palette_scroll(45, 10, 4), 1);
    assert_eq!(palette_scroll(211, 20, 5), 6);
}

#[test]
fn lobby_lines() {
    let room = RoomInfo { id: 1, name: "Club".to_string(), player_count: 3, table_count: 2, active_games: 1 };
    assert_eq!(room_line(&room, true), " > Club (3 players, 2 tables) [1 game(s)]");
    let quiet = RoomInfo { active_games: 0, ..room };
    assert_eq!(room_line(&quiet, false), "   Club (3 players, 2 tables)");
    let t = TableInfo {
        id: 4,
        white: Some(PlayerRef { id: 1, name: "Ann".to_string() }),
        black: None,
        spectator_count: 2,
        has_game: false,
        time_control: TimeControl::Unlimited,
    };
    assert_eq!(table_line(&t, false), "   Table 4: Ann vs (open) [waiting] +2 watching");
    let empty = TableInfo { white: None, spectator_count: 0, ..t };
    assert_eq!(table_line(&empty, true), " > Table 4: (open) vs (open) [empty]");
    let p = PlayerInfo { id: 7, name: "Bo".to_string(), status: PlayerStatus::Playing, table_id: Some(4) };
    assert_eq!(player_line(&p, Some(7)), "   Bo (you) [playing]");
    assert_eq!(player_line(&p, None), "   Bo [playing]");
    assert_eq!(chat_line("Bo", "hi"), "  Bo: hi");
    assert_eq!(chat_line("", "Bo joined"), "  Bo joined");
}
