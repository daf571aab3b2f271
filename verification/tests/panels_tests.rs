use cheshire_chess::board::{KING, QUEEN};
use cheshire_chess::canvas::{CanvasMode, CustomPieces, EMPTY_GRID, SHAPE_PALETTE};
use cheshire_chess::client::{Client, Effect, Key, Screen};

fn on_settings() -> Client {
    let mut c = Client::new("Ann".to_string());
    c.menu_selection = 3;
    let fx = c.menu_key(Key::Enter, false, false);
    assert!(fx.is_empty());
    assert_eq!(c.screen, Screen::Settings);
    c
}

#[test]
fn settings_list_stays_in_range() {
    let mut c = on_settings();
    c.settings_key(Key::Up);
    assert_eq!(c.settings_selection, 0);
    for _ in 0..10 {
        c.settings_key(Key::Char('j'));
    }
    assert_eq!(c.settings_selection, 3);
    c.settings_key(Key::Enter);
    assert_eq!(c.screen, Screen::Menu);
    assert_eq!(c.message, "hjkl/arrows to navigate, Enter to select");
}

#[test]
fn renaming_keeps_a_name_that_is_not_empty() {
    let mut c = on_settings();
    c.settings_key(Key::Enter);
    assert_eq!(c.screen, Screen::NameEdit);
    assert_eq!(c.name_input, "Ann");
    assert!(c.name_edit_key(Key::Backspace).is_empty());
    assert!(c.name_edit_key(Key::Char('a')).is_empty());
    assert_eq!(c.name_input, "Ana");
    let fx = c.name_edit_key(Key::Enter);
    assert!(matches!(&fx[..], [Effect::Rename(n)] if n == "Ana"));
    assert_eq!(c.player_name, "Ana");
    assert_eq!(c.message, "Name set to: Ana");
    assert_eq!(c.screen, Screen::Settings);
}

#[test]
fn an_empty_name_is_not_kept() {
    let mut c = on_settings();
    c.settings_key(Key::Enter);
    for _ in 0..5 {
        c.name_edit_key(Key::Backspace);
    }
    assert_eq!(c.name_input, "");
    let fx = c.name_edit_key(Key::Enter);
    assert!(fx.is_empty());
    assert_eq!(c.player_name, "Ann");
    assert_eq!(c.screen, Screen::Settings);
}

#[test]
fn sound_screens_ask_for_the_sound_work() {
    let mut c = on_settings();
    c.settings_key(Key::Down);
    c.settings_key(Key::Enter);
    assert_eq!(c.screen, Screen::SoundSettings);
    let fx = c.sound_settings_key(Key::Char('m'), true);
    assert!(matches!(&fx[..], [Effect::SetSound(false)]));
    assert_eq!(c.message, "Sound: OFF");
    for _ in 0..20 {
        c.sound_settings_key(Key::Down, false);
    }
    assert_eq!(c.sound_event_selection, 10);
    c.sound_settings_key(Key::Up, false);
    c.sound_settings_key(Key::Enter, false);
    assert_eq!(c.screen, Screen::SoundEventEdit);
    assert_eq!(c.message, "Editing: Tick — hjkl to adjust, [p] preview, Esc back");
    c.sound_event_key(Key::Down);
    let fx = c.sound_event_key(Key::Right);
    assert!(matches!(&fx[..], [Effect::AdjustSound { event: 9, param: 1, up: true }]));
    let fx = c.sound_event_key(Key::Char('h'));
    assert!(matches!(&fx[..], [Effect::AdjustSound { event: 9, param: 1, up: false }]));
    let fx = c.sound_event_key(Key::Char('p'));
    assert!(matches!(&fx[..], [Effect::Preview(9)]));
    let fx = c.sound_event_key(Key::Esc);
    assert!(matches!(&fx[..], [Effect::SaveSettings]));
    assert_eq!(c.screen, Screen::SoundSettings);
}

#[test]
fn drawing_and_saving_a_piece() {
    let mut c = on_settings();
    let mut customs = CustomPieces::new();
    c.settings_key(Key::Down);
    c.settings_key(Key::Down);
    c.settings_key(Key::Enter);
    assert_eq!(c.screen, Screen::Canvas);
    c.canvas_key(Key::Down, &mut customs);
    assert_eq!(c.canvas.selected_piece, 1);
    c.canvas_key(Key::Enter, &mut customs);
    assert_eq!(c.canvas.mode, CanvasMode::Drawing);
    assert_eq!(c.canvas.grid, EMPTY_GRID);
    assert_eq!(
        c.message,
        format!(
            "Drawing Queen | Shape: {} | Enter=stamp Space=erase Tab=shapes [s]ave Esc=back",
            SHAPE_PALETTE[0]
        )
    );
    c.canvas_key(Key::Tab, &mut customs);
    assert_eq!(c.canvas.mode, CanvasMode::ShapePicker);
    c.canvas_key(Key::Char('j'), &mut customs);
    c.canvas_key(Key::Right, &mut customs);
    assert_eq!(c.canvas.current_shape, 21);
    c.canvas_key(Key::Up, &mut customs);
    c.canvas_key(Key::Up, &mut customs);
    assert_eq!(c.canvas.current_shape, 0);
    for _ in 0..20 {
        c.canvas_key(Key::Down, &mut customs);
    }
    assert_eq!(c.canvas.current_shape, SHAPE_PALETTE.len() - 1);
    c.canvas_key(Key::Enter, &mut customs);
    assert_eq!(c.canvas.mode, CanvasMode::Drawing);
    c.canvas_key(Key::Enter, &mut customs);
    let ch = SHAPE_PALETTE[SHAPE_PALETTE.len() - 1];
    assert_eq!(c.canvas.grid[1][3], ch);
    let fx = c.canvas_key(Key::Char('s'), &mut customs);
    assert!(matches!(&fx[..], [Effect::SavePieces]));
    assert_eq!(c.message, "Queen saved!");
    assert_eq!(customs.get(QUEEN).unwrap()[1][3], ch);
    assert!(customs.get(KING).is_none());
    c.canvas_key(Key::Char('c'), &mut customs);
    assert_eq!(c.canvas.grid, EMPTY_GRID);
    c.canvas_key(Key::Esc, &mut customs);
    assert_eq!(c.canvas.mode, CanvasMode::PiecePicker);
    c.canvas_key(Key::Enter, &mut customs);
    assert_eq!(c.canvas.grid[1][3], ch);
    c.canvas_key(Key::Esc, &mut customs);
    c.canvas_key(Key::Esc, &mut customs);
    assert_eq!(c.screen, Screen::Menu);
}
