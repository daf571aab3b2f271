//! The settings screens and the piece editor: keys that change the player's
//! name, the event sounds and the custom piece designs. Like the rest of the
//! client, each key gives the next state and the effects for the caller.
use vstd::prelude::*;

use crate::canvas::{
    canvas_ok, fresh_canvas, grid_view, grid_with, CanvasMode, CanvasState, CanvasV, CustomPieces,
    EMPTY_GRID, PIECE_TYPES, SHAPE_PALETTE,
};
use crate::client::{
    drop_last_char, effects_view, menu_help, to_menu, Client, ClientV, Effect, EffectV, Key, Screen,
};
use crate::server::clone_string;
use crate::settings::SOUND_EVENT_NAMES;
use crate::text::{append_str, push_char};

verus! {

// ── Settings ───────────────────────────────────────────────────────

/// A key on the settings screen, whose entries are the player name, the
/// sounds, the piece editor and the way back.
pub open spec fn settings_key(c: ClientV, key: Key) -> ClientV {
    if key == Key::Up || key == Key::Char('k') {
        if c.settings_selection > 0 {
            ClientV { settings_selection: (c.settings_selection - 1) as usize, ..c }
        } else {
            c
        }
    } else if key == Key::Down || key == Key::Char('j') {
        if c.settings_selection < 3 {
            ClientV { settings_selection: (c.settings_selection + 1) as usize, ..c }
        } else {
            c
        }
    } else if key == Key::Enter || key == Key::Char('l') {
        if c.settings_selection == 0 {
            ClientV {
                name_input: c.player_name,
                screen: Screen::NameEdit,
                message: "Type your name, Enter to save, Esc to cancel"@,
                ..c
            }
        } else if c.settings_selection == 1 {
            ClientV {
                sound_event_selection: 0,
                screen: Screen::SoundSettings,
                message: "Select a sound event to edit"@,
                ..c
            }
        } else if c.settings_selection == 2 {
            ClientV {
                canvas: fresh_canvas(),
                screen: Screen::Canvas,
                message: "Select a piece to draw"@,
                ..c
            }
        } else if c.settings_selection == 3 {
            to_menu(c)
        } else {
            c
        }
    } else if key == Key::Esc || key == Key::Char('q') {
        to_menu(c)
    } else {
        c
    }
}

/// A key while editing the player name: Enter keeps a name that is not
/// empty and goes back to the settings, Esc goes back without it.
pub open spec fn name_edit_key(c: ClientV, key: Key) -> (ClientV, Seq<EffectV>) {
    match key {
        Key::Enter => if c.name_input.len() > 0 {
            (
                ClientV {
                    player_name: c.name_input,
                    message: "Name set to: "@ + c.name_input,
                    screen: Screen::Settings,
                    ..c
                },
                seq![EffectV::Rename(c.name_input)],
            )
        } else {
            (ClientV { screen: Screen::Settings, ..c }, seq![])
        },
        Key::Char(ch) => (ClientV { name_input: c.name_input.push(ch), ..c }, seq![]),
        Key::Backspace => (
            ClientV {
                name_input: if c.name_input.len() > 0 {
                    c.name_input.drop_last()
                } else {
                    c.name_input
                },
                ..c
            },
            seq![],
        ),
        Key::Esc => (ClientV { screen: Screen::Settings, message: "Settings"@, ..c }, seq![]),
        _ => (c, seq![]),
    }
}

/// A key on the list of event sounds; `sound_on` tells whether sound is on.
pub open spec fn sound_settings_key(c: ClientV, key: Key, sound_on: bool) -> (
    ClientV,
    Seq<EffectV>,
) {
    if key == Key::Up || key == Key::Char('k') {
        (
            if c.sound_event_selection > 0 {
                ClientV { sound_event_selection: (c.sound_event_selection - 1) as usize, ..c }
            } else {
                c
            },
            seq![],
        )
    } else if key == Key::Down || key == Key::Char('j') {
        (
            if c.sound_event_selection < 10 {
                ClientV { sound_event_selection: (c.sound_event_selection + 1) as usize, ..c }
            } else {
                c
            },
            seq![],
        )
    } else if key == Key::Enter || key == Key::Char('l') {
        (
            ClientV {
                sound_param_selection: 0,
                screen: Screen::SoundEventEdit,
                message: "Editing: "@ + SOUND_EVENT_NAMES[c.sound_event_selection as int]@
                    + " — hjkl to adjust, [p] preview, Esc back"@,
                ..c
            },
            seq![],
        )
    } else if key == Key::Char('m') || key == Key::Char('M') {
        (
            ClientV {
                message: if sound_on {
                    "Sound: OFF"@
                } else {
                    "Sound: ON"@
                },
                ..c
            },
            seq![EffectV::SetSound(!sound_on)],
        )
    } else if key == Key::Esc || key == Key::Char('q') {
        (ClientV { screen: Screen::Settings, message: "Settings"@, ..c }, seq![])
    } else {
        (c, seq![])
    }
}

/// A key while editing the parameters of one event's sound.
pub open spec fn sound_event_key(c: ClientV, key: Key) -> (ClientV, Seq<EffectV>) {
    if key == Key::Up || key == Key::Char('k') {
        (
            if c.sound_param_selection > 0 {
                ClientV { sound_param_selection: (c.sound_param_selection - 1) as usize, ..c }
            } else {
                c
            },
            seq![],
        )
    } else if key == Key::Down || key == Key::Char('j') {
        (
            if c.sound_param_selection < 9 {
                ClientV { sound_param_selection: (c.sound_param_selection + 1) as usize, ..c }
            } else {
                c
            },
            seq![],
        )
    } else if key == Key::Right || key == Key::Char('l') {
        (
            c,
            seq![
                EffectV::AdjustSound {
                    event: c.sound_event_selection,
                    param: c.sound_param_selection,
                    up: true,
                },
            ],
        )
    } else if key == Key::Left || key == Key::Char('h') {
        (
            c,
            seq![
                EffectV::AdjustSound {
                    event: c.sound_event_selection,
                    param: c.sound_param_selection,
                    up: false,
                },
            ],
        )
    } else if key == Key::Char('p') || key == Key::Char('P') {
        (c, seq![EffectV::Preview(c.sound_event_selection)])
    } else if key == Key::Char('s') {
        (ClientV { message: "Sound settings saved!"@, ..c }, seq![EffectV::SaveSettings])
    } else if key == Key::Esc || key == Key::Char('q') {
        (
            ClientV {
                screen: Screen::SoundSettings,
                message: "Select a sound event to edit"@,
                ..c
            },
            seq![EffectV::SaveSettings],
        )
    } else {
        (c, seq![])
    }
}

impl Client {
    /// A key on the settings screen (see `settings_key`).
    pub fn settings_key(&mut self, key: Key)
        ensures
            final(self)@ == settings_key(old(self)@, key),
    {
        match key {
            Key::Up | Key::Char('k') => {
                if self.settings_selection > 0 {
                    self.settings_selection = self.settings_selection - 1;
                }
            },
            Key::Down | Key::Char('j') => {
                if self.settings_selection < 3 {
                    self.settings_selection = self.settings_selection + 1;
                }
            },
            Key::Enter | Key::Char('l') => {
                if self.settings_selection == 0 {
                    self.name_input = clone_string(&self.player_name);
                    self.screen = Screen::NameEdit;
                    self.message = "Type your name, Enter to save, Esc to cancel".to_owned();
                } else if self.settings_selection == 1 {
                    self.sound_event_selection = 0;
                    self.screen = Screen::SoundSettings;
                    self.message = "Select a sound event to edit".to_owned();
                } else if self.settings_selection == 2 {
                    self.canvas = CanvasState::new();
                    self.screen = Screen::Canvas;
                    self.message = "Select a piece to draw".to_owned();
                } else if self.settings_selection == 3 {
                    self.screen = Screen::Menu;
                    self.message = "hjkl/arrows to navigate, Enter to select".to_owned();
                }
            },
            Key::Esc | Key::Char('q') => {
                self.screen = Screen::Menu;
                self.message = "hjkl/arrows to navigate, Enter to select".to_owned();
            },
            _ => {},
        }
    }

    /// A key while editing the player name (see `name_edit_key`).
    pub fn name_edit_key(&mut self, key: Key) -> (fx: Vec<Effect>)
        ensures
            final(self)@ == name_edit_key(old(self)@, key).0,
            effects_view(fx@) == name_edit_key(old(self)@, key).1,
    {
        let mut fx: Vec<Effect> = Vec::new();
        match key {
            Key::Enter => {
                if !self.name_input.as_str().is_empty() {
                    self.player_name = clone_string(&self.name_input);
                    let mut m = "Name set to: ".to_owned();
                    append_str(&mut m, self.name_input.as_str());
                    self.message = m;
                    fx.push(Effect::Rename(clone_string(&self.name_input)));
                }
                self.screen = Screen::Settings;
            },
            Key::Char(ch) => {
                push_char(&mut self.name_input, ch);
            },
            Key::Backspace => {
                drop_last_char(&mut self.name_input);
            },
            Key::Esc => {
                self.screen = Screen::Settings;
                self.message = "Settings".to_owned();
            },
            _ => {},
        }
        assert(effects_view(fx@) =~= name_edit_key(old(self)@, key).1);
        fx
    }

    /// A key on the list of event sounds (see `sound_settings_key`).
    pub fn sound_settings_key(&mut self, key: Key, sound_on: bool) -> (fx: Vec<Effect>)
        requires
            old(self).sound_event_selection < 11,
        ensures
            final(self)@ == sound_settings_key(old(self)@, key, sound_on).0,
            effects_view(fx@) == sound_settings_key(old(self)@, key, sound_on).1,
            final(self).sound_event_selection < 11,
    {
        let mut fx: Vec<Effect> = Vec::new();
        match key {
            Key::Up | Key::Char('k') => {
                if self.sound_event_selection > 0 {
                    self.sound_event_selection = self.sound_event_selection - 1;
                }
            },
            Key::Down | Key::Char('j') => {
                if self.sound_event_selection < 10 {
                    self.sound_event_selection = self.sound_event_selection + 1;
                }
            },
            Key::Enter | Key::Char('l') => {
                self.sound_param_selection = 0;
                self.screen = Screen::SoundEventEdit;
                let mut m = "Editing: ".to_owned();
                append_str(&mut m, SOUND_EVENT_NAMES[self.sound_event_selection]);
                append_str(&mut m, " — hjkl to adjust, [p] preview, Esc back");
                self.message = m;
            },
            Key::Char('m') | Key::Char('M') => {
                self.message = if sound_on {
                    "Sound: OFF".to_owned()
                } else {
                    "Sound: ON".to_owned()
                };
                fx.push(Effect::SetSound(!sound_on));
            },
            Key::Esc | Key::Char('q') => {
                self.screen = Screen::Settings;
                self.message = "Settings".to_owned();
            },
            _ => {},
        }
        assert(effects_view(fx@) =~= sound_settings_key(old(self)@, key, sound_on).1);
        fx
    }

    /// A key while editing one event's sound (see `sound_event_key`).
    pub fn sound_event_key(&mut self, key: Key) -> (fx: Vec<Effect>)
        ensures
            final(self)@ == sound_event_key(old(self)@, key).0,
            effects_view(fx@) == sound_event_key(old(self)@, key).1,
    {
        let mut fx: Vec<Effect> = Vec::new();
        match key {
            Key::Up | Key::Char('k') => {
                if self.sound_param_selection > 0 {
                    self.sound_param_selection = self.sound_param_selection - 1;
                }
            },
            Key::Down | Key::Char('j') => {
                if self.sound_param_selection < 9 {
                    self.sound_param_selection = self.sound_param_selection + 1;
                }
            },
            Key::Right | Key::Char('l') => {
                fx.push(
                    Effect::AdjustSound {
                        event: self.sound_event_selection,
                        param: self.sound_param_selection,
                        up: true,
                    },
                );
            },
            Key::Left | Key::Char('h') => {
                fx.push(
                    Effect::AdjustSound {
                        event: self.sound_event_selection,
                        param: self.sound_param_selection,
                        up: false,
                    },
                );
            },
            Key::Char('p') | Key::Char('P') => {
                fx.push(Effect::Preview(self.sound_event_selection));
            },
            Key::Char('s') => {
                self.message = "Sound settings saved!".to_owned();
                fx.push(Effect::SaveSettings);
            },
            Key::Esc | Key::Char('q') => {
                self.screen = Screen::SoundSettings;
                self.message = "Select a sound event to edit".to_owned();
                fx.push(Effect::SaveSettings);
            },
            _ => {},
        }
        assert(effects_view(fx@) =~= sound_event_key(old(self)@, key).1);
        fx
    }
}

// ── The piece editor ───────────────────────────────────────────────

/// The editor's help line while drawing: the piece, the shape, the keys.
pub open spec fn drawing_help(v: CanvasV) -> Seq<char> {
    "Drawing "@ + PIECE_TYPES[v.selected_piece as int].1@ + " | Shape: "@ + seq![
        SHAPE_PALETTE[v.current_shape as int],
    ] + " | Enter=stamp Space=erase Tab=shapes [s]ave Esc=back"@
}

/// A key on the editor's list of pieces; `designs` are the saved designs by
/// piece type. Enter opens the piece's saved design, or a blank grid.
pub open spec fn picker_key(c: ClientV, key: Key, designs: Map<usize, Seq<Seq<char>>>) -> ClientV {
    let v = c.canvas;
    if key == Key::Up || key == Key::Char('k') {
        if v.selected_piece > 0 {
            ClientV { canvas: CanvasV { selected_piece: (v.selected_piece - 1) as usize, ..v }, ..c }
        } else {
            c
        }
    } else if key == Key::Down || key == Key::Char('j') {
        if v.selected_piece < 5 {
            ClientV { canvas: CanvasV { selected_piece: (v.selected_piece + 1) as usize, ..v }, ..c }
        } else {
            c
        }
    } else if key == Key::Enter || key == Key::Char('l') {
        let pt = PIECE_TYPES[v.selected_piece as int].0;
        let nv = CanvasV {
            grid: if designs.contains_key(pt) {
                designs[pt]
            } else {
                grid_view(EMPTY_GRID)
            },
            mode: CanvasMode::Drawing,
            cursor_row: 1,
            cursor_col: 3,
            ..v
        };
        ClientV { canvas: nv, message: drawing_help(nv), ..c }
    } else if key == Key::Esc || key == Key::Char('q') {
        to_menu(c)
    } else {
        c
    }
}

/// A key while drawing: the arrows move the cursor on the 3 by 7 grid, Enter
/// stamps the shape, space or delete blanks the cell, `s` keeps the design,
/// `c` clears the grid.
pub open spec fn drawing_key(c: ClientV, key: Key) -> (ClientV, Seq<EffectV>) {
    let v = c.canvas;
    if key == Key::Up || key == Key::Char('k') {
        (
            if v.cursor_row > 0 {
                ClientV { canvas: CanvasV { cursor_row: (v.cursor_row - 1) as usize, ..v }, ..c }
            } else {
                c
            },
            seq![],
        )
    } else if key == Key::Down || key == Key::Char('j') {
        (
            if v.cursor_row < 2 {
                ClientV { canvas: CanvasV { cursor_row: (v.cursor_row + 1) as usize, ..v }, ..c }
            } else {
                c
            },
            seq![],
        )
    } else if key == Key::Left || key == Key::Char('h') {
        (
            if v.cursor_col > 0 {
                ClientV { canvas: CanvasV { cursor_col: (v.cursor_col - 1) as usize, ..v }, ..c }
            } else {
                c
            },
            seq![],
        )
    } else if key == Key::Right || key == Key::Char('l') {
        (
            if v.cursor_col < 6 {
                ClientV { canvas: CanvasV { cursor_col: (v.cursor_col + 1) as usize, ..v }, ..c }
            } else {
                c
            },
            seq![],
        )
    } else if key == Key::Enter {
        (
            ClientV {
                canvas: CanvasV {
                    grid: grid_with(
                        v.grid,
                        v.cursor_row as int,
                        v.cursor_col as int,
                        SHAPE_PALETTE[v.current_shape as int],
                    ),
                    ..v
                },
                ..c
            },
            seq![],
        )
    } else if key == Key::Char(' ') || key == Key::Delete || key == Key::Backspace {
        (
            ClientV {
                canvas: CanvasV {
                    grid: grid_with(v.grid, v.cursor_row as int, v.cursor_col as int, ' '),
                    ..v
                },
                ..c
            },
            seq![],
        )
    } else if key == Key::Tab {
        (
            ClientV {
                canvas: CanvasV { mode: CanvasMode::ShapePicker, ..v },
                message: "Select a shape | hjkl/arrows | Enter to pick | Esc=back"@,
                ..c
            },
            seq![],
        )
    } else if key == Key::Char('s') {
        (
            ClientV { message: PIECE_TYPES[v.selected_piece as int].1@ + " saved!"@, ..c },
            seq![EffectV::SavePieces],
        )
    } else if key == Key::Char('c') {
        (
            ClientV {
                canvas: CanvasV { grid: grid_view(EMPTY_GRID), ..v },
                message: "Grid cleared"@,
                ..c
            },
            seq![],
        )
    } else if key == Key::Esc || key == Key::Char('q') {
        (
            ClientV {
                canvas: CanvasV { mode: CanvasMode::PiecePicker, ..v },
                message: "Select a piece to draw"@,
                ..c
            },
            seq![],
        )
    } else {
        (c, seq![])
    }
}

/// A key on the shape palette: left and right step by one, up and down by a
/// row of twenty, staying on the palette; Enter or Esc go back to drawing.
pub open spec fn shape_key(c: ClientV, key: Key) -> ClientV {
    let v = c.canvas;
    if key == Key::Left || key == Key::Char('h') {
        if v.current_shape > 0 {
            ClientV { canvas: CanvasV { current_shape: (v.current_shape - 1) as usize, ..v }, ..c }
        } else {
            c
        }
    } else if key == Key::Right || key == Key::Char('l') {
        if v.current_shape < 211 {
            ClientV { canvas: CanvasV { current_shape: (v.current_shape + 1) as usize, ..v }, ..c }
        } else {
            c
        }
    } else if key == Key::Up || key == Key::Char('k') {
        ClientV {
            canvas: CanvasV {
                current_shape: if v.current_shape >= 20 {
                    (v.current_shape - 20) as usize
                } else {
                    0
                },
                ..v
            },
            ..c
        }
    } else if key == Key::Down || key == Key::Char('j') {
        ClientV {
            canvas: CanvasV {
                current_shape: if v.current_shape + 20 <= 211 {
                    (v.current_shape + 20) as usize
                } else {
                    211
                },
                ..v
            },
            ..c
        }
    } else if key == Key::Enter || key == Key::Esc {
        let nv = CanvasV { mode: CanvasMode::Drawing, ..v };
        ClientV { canvas: nv, message: drawing_help(nv), ..c }
    } else {
        c
    }
}

/// A key on the piece editor, by what the editor is doing.
pub open spec fn canvas_key(c: ClientV, key: Key, designs: Map<usize, Seq<Seq<char>>>) -> (
    ClientV,
    Seq<EffectV>,
) {
    match c.canvas.mode {
        CanvasMode::PiecePicker => (picker_key(c, key, designs), seq![]),
        CanvasMode::Drawing => drawing_key(c, key),
        CanvasMode::ShapePicker => (shape_key(c, key), seq![]),
    }
}

/// Whether the key keeps the design being drawn.
pub open spec fn saves_design(c: ClientV, key: Key) -> bool {
    c.canvas.mode == CanvasMode::Drawing && key == Key::Char('s')
}

/// The help line while drawing (see `drawing_help`).
fn drawing_help_text(v: &CanvasState) -> (s: String)
    requires
        canvas_ok(v@),
    ensures
        s@ == drawing_help(v@),
{
    let mut m = "Drawing ".to_owned();
    append_str(&mut m, v.piece_name());
    append_str(&mut m, " | Shape: ");
    push_char(&mut m, v.current_char());
    append_str(&mut m, " | Enter=stamp Space=erase Tab=shapes [s]ave Esc=back");
    m
}

impl Client {
    /// A key on the piece editor (see `canvas_key`). Keeping a design puts
    /// it among `customs`; the caller saves them when asked.
    pub fn canvas_key(&mut self, key: Key, customs: &mut CustomPieces) -> (fx: Vec<Effect>)
        requires
            canvas_ok(old(self)@.canvas),
        ensures
            final(self)@ == canvas_key(old(self)@, key, old(customs).designs()).0,
            effects_view(fx@) == canvas_key(old(self)@, key, old(customs).designs()).1,
            final(customs).designs() == if saves_design(old(self)@, key) {
                old(customs).designs().insert(
                    PIECE_TYPES[old(self).canvas.selected_piece as int].0,
                    old(self)@.canvas.grid,
                )
            } else {
                old(customs).designs()
            },
            canvas_ok(final(self)@.canvas),
    {
        let mut fx: Vec<Effect> = Vec::new();
        match self.canvas.mode {
            CanvasMode::PiecePicker => {
                match key {
                    Key::Up | Key::Char('k') => {
                        if self.canvas.selected_piece > 0 {
                            self.canvas.selected_piece = self.canvas.selected_piece - 1;
                        }
                    },
                    Key::Down | Key::Char('j') => {
                        if self.canvas.selected_piece < 5 {
                            self.canvas.selected_piece = self.canvas.selected_piece + 1;
                        }
                    },
                    Key::Enter | Key::Char('l') => {
                        self.canvas.load_grid(customs);
                        self.canvas.mode = CanvasMode::Drawing;
                        self.canvas.cursor_row = 1;
                        self.canvas.cursor_col = 3;
                        self.message = drawing_help_text(&self.canvas);
                    },
                    Key::Esc | Key::Char('q') => {
                        self.screen = Screen::Menu;
                        self.message = "hjkl/arrows to navigate, Enter to select".to_owned();
                    },
                    _ => {},
                }
            },
            CanvasMode::Drawing => {
                match key {
                    Key::Up | Key::Char('k') => {
                        if self.canvas.cursor_row > 0 {
                            self.canvas.cursor_row = self.canvas.cursor_row - 1;
                        }
                    },
                    Key::Down | Key::Char('j') => {
                        if self.canvas.cursor_row < 2 {
                            self.canvas.cursor_row = self.canvas.cursor_row + 1;
                        }
                    },
                    Key::Left | Key::Char('h') => {
                        if self.canvas.cursor_col > 0 {
                            self.canvas.cursor_col = self.canvas.cursor_col - 1;
                        }
                    },
                    Key::Right | Key::Char('l') => {
                        if self.canvas.cursor_col < 6 {
                            self.canvas.cursor_col = self.canvas.cursor_col + 1;
                        }
                    },
                    Key::Enter => {
                        self.canvas.stamp();
                    },
                    Key::Char(' ') | Key::Delete | Key::Backspace => {
                        self.canvas.erase();
                    },
                    Key::Tab => {
                        self.canvas.mode = CanvasMode::ShapePicker;
                        self.message = "Select a shape | hjkl/arrows | Enter to pick | Esc=back".to_owned();
                    },
                    Key::Char('s') => {
                        let pt = self.canvas.piece_type();
                        customs.set(pt, self.canvas.grid);
                        let mut m = String::new();
                        append_str(&mut m, self.canvas.piece_name());
                        append_str(&mut m, " saved!");
                        self.message = m;
                        fx.push(Effect::SavePieces);
                        assert(customs.designs() =~= old(customs).designs().insert(
                            pt,
                            grid_view(self.canvas.grid),
                        ));
                    },
                    Key::Char('c') => {
                        self.canvas.grid = EMPTY_GRID;
                        self.message = "Grid cleared".to_owned();
                    },
                    Key::Esc | Key::Char('q') => {
                        self.canvas.mode = CanvasMode::PiecePicker;
                        self.message = "Select a piece to draw".to_owned();
                    },
                    _ => {},
                }
            },
            CanvasMode::ShapePicker => {
                match key {
                    Key::Left | Key::Char('h') => {
                        if self.canvas.current_shape > 0 {
                            self.canvas.current_shape = self.canvas.current_shape - 1;
                        }
                    },
                    Key::Right | Key::Char('l') => {
                        if self.canvas.current_shape < 211 {
                            self.canvas.current_shape = self.canvas.current_shape + 1;
                        }
                    },
                    Key::Up | Key::Char('k') => {
                        self.canvas.current_shape = if self.canvas.current_shape >= 20 {
                            self.canvas.current_shape - 20
                        } else {
                            0
                        };
                    },
                    Key::Down | Key::Char('j') => {
                        self.canvas.current_shape = if self.canvas.current_shape + 20 <= 211 {
                            self.canvas.current_shape + 20
                        } else {
                            211
                        };
                    },
                    Key::Enter | Key::Esc => {
                        self.canvas.mode = CanvasMode::Drawing;
                        self.message = drawing_help_text(&self.canvas);
                    },
                    _ => {},
                }
            },
        }
        assert(effects_view(fx@) =~= canvas_key(old(self)@, key, old(customs).designs()).1);
        fx
    }
}

// ── Laws ───────────────────────────────────────────────────────────

/// A design kept with `s` comes back when its piece is opened again: leaving
/// the drawing and choosing the same piece shows the grid that was saved.
pub proof fn law_saved_design_reopens(c: ClientV, designs: Map<usize, Seq<Seq<char>>>)
    requires
        c.canvas.mode == CanvasMode::Drawing,
        canvas_ok(c.canvas),
    ensures
        ({
            let saved = designs.insert(PIECE_TYPES[c.canvas.selected_piece as int].0, c.canvas.grid);
            let c1 = canvas_key(c, Key::Char('s'), designs).0;
            let c2 = canvas_key(c1, Key::Esc, saved).0;
            let c3 = canvas_key(c2, Key::Enter, saved).0;
            &&& c3.canvas.grid == c.canvas.grid
            &&& c3.canvas.mode == CanvasMode::Drawing
            &&& c3.canvas.selected_piece == c.canvas.selected_piece
        }),
{
}

/// Whatever keys come, the editor's indices stay on the piece list, the grid
/// and the palette.
pub proof fn law_editor_stays_in_range(c: ClientV, key: Key, designs: Map<usize, Seq<Seq<char>>>)
    requires
        canvas_ok(c.canvas),
    ensures
        canvas_ok(canvas_key(c, key, designs).0.canvas),
{
}

} // verus!
