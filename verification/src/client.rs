//! The client's state machine: what the screens show and how the client
//! answers server messages and keys. The caller performs the effects it asks
//! for (messages to send, sounds to play) and the rest of the outside work.
use vstd::prelude::*;

use crate::board::{
    move_in_range, spec_from_fen, spec_from_uci, spec_in_check, spec_legal_moves, spec_make_move,
    spec_piece_at, spec_to_uci, start_position, Color, Move, Position, QUEEN,
};
use vstd::utf8::encode_utf8;
use crate::protocol::{
    players_view, rooms_view, tables_view, ChatKind, ClientMsg, ClientMsgV, PlayerInfo,
    PlayerInfoV, RoomInfo, RoomInfoV, ServerMsg, ServerMsgV, TableInfo, TableInfoV, TimeControl,
};
use crate::canvas::{fresh_canvas, CanvasState, CanvasV};
use crate::puzzle::{puzzles_view, Puzzle, PuzzleV};
use crate::server::clone_string;
use crate::text::{append_str, decimal_of, push_decimal};

verus! {

/// The screens of the client.
#[derive(Clone, Copy, Debug, PartialEq, Eq, Structural)]
pub enum Screen {
    Menu,
    ThemePicker,
    Puzzle,
    Analysis,
    Results,
    Canvas,
    RoomBrowser,
    RoomLobby,
    LiveGame,
    Settings,
    SoundSettings,
    SoundEventEdit,
    NameEdit,
}

/// The room chat: messages as (sender, body, kind), the line being typed, and
/// whether the user is typing.
pub struct ChatState {
    pub messages: Vec<(String, String, ChatKind)>,
    pub input: String,
    pub typing: bool,
}

pub struct ChatV {
    pub messages: Seq<(Seq<char>, Seq<char>, ChatKind)>,
    pub input: Seq<char>,
    pub typing: bool,
}

impl View for ChatState {
    type V = ChatV;

    open spec fn view(&self) -> ChatV {
        ChatV {
            messages: self.messages@.map_values(
                |m: (String, String, ChatKind)| (m.0@, m.1@, m.2),
            ),
            input: self.input@,
            typing: self.typing,
        }
    }
}

pub open spec fn empty_chat() -> ChatV {
    ChatV { messages: seq![], input: seq![], typing: false }
}

impl ChatState {
    pub fn new() -> (c: Self)
        ensures
            c@ == empty_chat(),
    {
        let c = ChatState { messages: Vec::new(), input: String::new(), typing: false };
        assert(c@.messages =~= seq![]);
        c
    }
}

/// The sounds the client asks for.
#[derive(Clone, Copy, Debug, PartialEq, Eq, Structural)]
pub enum Cue {
    Login,
    Exit,
    Move,
    Capture,
    Check,
    Checkmate,
    Wrong,
    Correct,
    Hint,
    Tick,
    Select,
    SessionComplete,
}

/// What the client asks of the world outside.
pub enum Effect {
    /// send a message to the game server
    Send(ClientMsg),
    /// play a sound
    Play(Cue),
    /// go online: fetch the list of game servers and connect to the central one
    GoOnline,
    /// fetch the list of other servers again
    RefreshServers,
    /// load the puzzles of the practice theme with this index
    LoadTheme(usize),
    /// connect to the listed remote server with this index
    ConnectRemote(usize),
    /// write the custom piece designs to their file
    SavePieces,
    /// keep this player name in the settings and save them
    Rename(String),
    /// switch sound on or off and save the settings
    SetSound(bool),
    /// step a parameter of an event's sound up (`true`) or down
    AdjustSound { event: usize, param: usize, up: bool },
    /// play the sound of the event with this index
    Preview(usize),
    /// save the settings
    SaveSettings,
}

pub enum EffectV {
    Send(ClientMsgV),
    Play(Cue),
    GoOnline,
    RefreshServers,
    LoadTheme(usize),
    ConnectRemote(usize),
    SavePieces,
    Rename(Seq<char>),
    SetSound(bool),
    AdjustSound { event: usize, param: usize, up: bool },
    Preview(usize),
    SaveSettings,
}

impl View for Effect {
    type V = EffectV;

    open spec fn view(&self) -> EffectV {
        match self {
            Effect::Send(m) => EffectV::Send(m@),
            Effect::Play(c) => EffectV::Play(*c),
            Effect::GoOnline => EffectV::GoOnline,
            Effect::RefreshServers => EffectV::RefreshServers,
            Effect::LoadTheme(i) => EffectV::LoadTheme(*i),
            Effect::ConnectRemote(i) => EffectV::ConnectRemote(*i),
            Effect::SavePieces => EffectV::SavePieces,
            Effect::Rename(n) => EffectV::Rename(n@),
            Effect::SetSound(b) => EffectV::SetSound(*b),
            Effect::AdjustSound { event, param, up } => EffectV::AdjustSound {
                event: *event,
                param: *param,
                up: *up,
            },
            Effect::Preview(i) => EffectV::Preview(*i),
            Effect::SaveSettings => EffectV::SaveSettings,
        }
    }
}

pub open spec fn effects_view(v: Seq<Effect>) -> Seq<EffectV> {
    v.map_values(|e: Effect| e@)
}

/// The client's state.
pub struct Client {
    pub screen: Screen,
    pub board: Position,
    pub cursor: u8,
    pub running: bool,
    pub message: String,
    pub menu_selection: usize,
    pub theme_selection: usize,
    pub puzzle_queue: Vec<Puzzle>,
    pub puzzle_pos: usize,
    pub puzzle_move_index: usize,
    pub selected_sq: Option<u8>,
    pub highlights: Vec<u8>,
    pub score_correct: usize,
    pub score_total: usize,
    pub my_id: Option<u32>,
    pub player_name: String,
    pub room_list: Vec<RoomInfo>,
    pub room_selection: usize,
    pub current_room: Option<RoomInfo>,
    pub room_players: Vec<PlayerInfo>,
    pub player_selection: usize,
    pub chat: ChatState,
    pub tables: Vec<TableInfo>,
    pub table_selection: usize,
    pub current_table: Option<u32>,
    pub live_white: Option<u32>,
    pub live_black: Option<u32>,
    pub game_active: bool,
    pub settings_selection: usize,
    pub name_input: String,
    pub sound_event_selection: usize,
    pub sound_param_selection: usize,
    pub canvas: CanvasState,
}

pub struct ClientV {
    pub screen: Screen,
    pub board: Position,
    pub cursor: u8,
    pub running: bool,
    pub message: Seq<char>,
    pub menu_selection: usize,
    pub theme_selection: usize,
    pub puzzle_queue: Seq<PuzzleV>,
    pub puzzle_pos: usize,
    pub puzzle_move_index: usize,
    pub selected_sq: Option<u8>,
    pub highlights: Seq<u8>,
    pub score_correct: usize,
    pub score_total: usize,
    pub my_id: Option<u32>,
    pub player_name: Seq<char>,
    pub room_list: Seq<RoomInfoV>,
    pub room_selection: usize,
    pub current_room: Option<RoomInfoV>,
    pub room_players: Seq<PlayerInfoV>,
    pub player_selection: usize,
    pub chat: ChatV,
    pub tables: Seq<TableInfoV>,
    pub table_selection: usize,
    pub current_table: Option<u32>,
    pub live_white: Option<u32>,
    pub live_black: Option<u32>,
    pub game_active: bool,
    pub settings_selection: usize,
    pub name_input: Seq<char>,
    pub sound_event_selection: usize,
    pub sound_param_selection: usize,
    pub canvas: CanvasV,
}

pub open spec fn room_view(r: Option<RoomInfo>) -> Option<RoomInfoV> {
    match r {
        Some(x) => Some(x@),
        None => None,
    }
}

impl View for Client {
    type V = ClientV;

    open spec fn view(&self) -> ClientV {
        ClientV {
            screen: self.screen,
            board: self.board,
            cursor: self.cursor,
            running: self.running,
            message: self.message@,
            menu_selection: self.menu_selection,
            theme_selection: self.theme_selection,
            puzzle_queue: puzzles_view(self.puzzle_queue@),
            puzzle_pos: self.puzzle_pos,
            puzzle_move_index: self.puzzle_move_index,
            selected_sq: self.selected_sq,
            highlights: self.highlights@,
            score_correct: self.score_correct,
            score_total: self.score_total,
            my_id: self.my_id,
            player_name: self.player_name@,
            room_list: rooms_view(self.room_list@),
            room_selection: self.room_selection,
            current_room: room_view(self.current_room),
            room_players: players_view(self.room_players@),
            player_selection: self.player_selection,
            chat: self.chat@,
            tables: tables_view(self.tables@),
            table_selection: self.table_selection,
            current_table: self.current_table,
            live_white: self.live_white,
            live_black: self.live_black,
            game_active: self.game_active,
            settings_selection: self.settings_selection,
            name_input: self.name_input@,
            sound_event_selection: self.sound_event_selection,
            sound_param_selection: self.sound_param_selection,
            canvas: self.canvas@,
        }
    }
}

// ── Answering the server ───────────────────────────────────────────

/// The lobby's help line.
pub open spec fn lobby_help() -> Seq<char> {
    "[t] new table, Enter=join table, Tab=chat, Esc=leave"@
}

/// `ps` without the players with id `id`.
pub open spec fn players_without(ps: Seq<PlayerInfoV>, id: u32) -> Seq<PlayerInfoV>
    decreases ps.len(),
{
    if ps.len() == 0 {
        ps
    } else {
        players_without(ps.drop_last(), id) + if ps.last().id == id {
            seq![]
        } else {
            seq![ps.last()]
        }
    }
}

/// `ts` without the tables with id `id`.
pub open spec fn tables_without(ts: Seq<TableInfoV>, id: u32) -> Seq<TableInfoV>
    decreases ts.len(),
{
    if ts.len() == 0 {
        ts
    } else {
        tables_without(ts.drop_last(), id) + if ts.last().id == id {
            seq![]
        } else {
            seq![ts.last()]
        }
    }
}

/// The index of the first table in `ts` at or after `i` with id `id`, or -1.
pub open spec fn table_at(ts: Seq<TableInfoV>, id: u32, i: int) -> int
    decreases ts.len() - i,
{
    if i < 0 || i >= ts.len() {
        -1
    } else if ts[i].id == id {
        i
    } else {
        table_at(ts, id, i + 1)
    }
}

/// `ts` with the first table that has `t`'s id replaced by `t`; unchanged
/// when there is none.
pub open spec fn tables_with(ts: Seq<TableInfoV>, t: TableInfoV) -> Seq<TableInfoV> {
    let i = table_at(ts, t.id, 0);
    if i >= 0 {
        ts.update(i, t)
    } else {
        ts
    }
}

/// The board a FEN text gives, or `board` when the text is not FEN.
pub open spec fn board_from(fen: Seq<char>, board: Position) -> Position {
    match spec_from_fen(fen) {
        Some(p) => p,
        None => board,
    }
}

/// Whether the side to move on the client's board is the user's.
pub open spec fn my_turn(c: ClientV) -> bool {
    match c.my_id {
        None => false,
        Some(id) => if c.board.side_to_move == Color::White {
            c.live_white == Some(id)
        } else {
            c.live_black == Some(id)
        },
    }
}

/// The user's colour in a game, as the start message names it.
pub open spec fn colour_word(c: ClientV, white: u32, black: u32) -> Seq<char> {
    if Some(white) == c.my_id {
        "White"@
    } else if Some(black) == c.my_id {
        "Black"@
    } else {
        "Spectator"@
    }
}

/// The result of a game for the user, as the end message names it.
pub open spec fn result_word(c: ClientV, winner: Option<u32>) -> Seq<char> {
    match winner {
        Some(id) => if Some(id) == c.my_id {
            "You win!"@
        } else {
            "You lose."@
        },
        None => "Draw."@,
    }
}

/// How the client answers a server message: its next state and the effects.
pub open spec fn on_message(c: ClientV, m: ServerMsgV) -> (ClientV, Seq<EffectV>) {
    match m {
        ServerMsgV::Welcome { your_id } => (
            ClientV {
                my_id: Some(your_id),
                screen: Screen::RoomBrowser,
                message: "Connected as "@ + c.player_name + ". Browse rooms or create one."@,
                ..c
            },
            seq![
                EffectV::Send(ClientMsgV::SetName { name: c.player_name }),
                EffectV::Send(ClientMsgV::ListRooms),
            ],
        ),
        ServerMsgV::Error { msg } => (ClientV { message: "Server: "@ + msg, ..c }, seq![]),
        ServerMsgV::RoomList { rooms } => (
            ClientV { room_list: rooms, room_selection: 0, ..c },
            seq![],
        ),
        ServerMsgV::RoomJoined { room, players, tables } => (
            ClientV {
                current_room: Some(room),
                room_players: players,
                tables,
                player_selection: 0,
                table_selection: 0,
                chat: empty_chat(),
                screen: Screen::RoomLobby,
                message: lobby_help(),
                ..c
            },
            seq![],
        ),
        ServerMsgV::PlayerJoined { player } => (
            ClientV { room_players: c.room_players.push(player), ..c },
            seq![],
        ),
        ServerMsgV::PlayerLeft { player_id } => (
            ClientV { room_players: players_without(c.room_players, player_id), ..c },
            seq![],
        ),
        ServerMsgV::TableCreated { table } => (
            ClientV { tables: c.tables.push(table), ..c },
            seq![],
        ),
        ServerMsgV::TableUpdated { table } => (
            ClientV { tables: tables_with(c.tables, table), ..c },
            seq![],
        ),
        ServerMsgV::TableRemoved { table_id } => (
            ClientV { tables: tables_without(c.tables, table_id), ..c },
            seq![],
        ),
        ServerMsgV::TableJoined { table, fen } => (
            ClientV {
                current_table: Some(table.id),
                board: board_from(fen, c.board),
                screen: Screen::LiveGame,
                message: "At the table. Waiting for game..."@,
                ..c
            },
            seq![],
        ),
        ServerMsgV::GameStarted { table_id, white, black, fen, time_control } => {
            let c1 = ClientV {
                live_white: Some(white),
                live_black: Some(black),
                game_active: true,
                board: board_from(fen, c.board),
                selected_sq: None,
                highlights: seq![],
                cursor: 28,
                ..c
            };
            if c.current_table != Some(table_id) {
                (c1, seq![])
            } else {
                (
                    ClientV {
                        screen: Screen::LiveGame,
                        message: "Game started! You are "@ + colour_word(c, white, black) + "."@,
                        ..c1
                    },
                    seq![],
                )
            }
        },
        ServerMsgV::MoveMade { table_id, uci, fen, white_time_ms, black_time_ms } => {
            if c.current_table == Some(table_id) {
                let b = board_from(fen, c.board);
                let sounds = match spec_from_fen(fen) {
                    Some(p) => seq![
                        EffectV::Play(
                            if spec_in_check(p, p.side_to_move) {
                                Cue::Check
                            } else {
                                Cue::Move
                            },
                        ),
                    ],
                    None => seq![],
                };
                let c1 = ClientV { board: b, selected_sq: None, highlights: seq![], ..c };
                (
                    ClientV {
                        message: if my_turn(c1) {
                            "Your move!"@
                        } else {
                            "Opponent's turn..."@
                        },
                        ..c1
                    },
                    sounds,
                )
            } else {
                (c, seq![])
            }
        },
        ServerMsgV::GameOver { table_id, reason, winner } => {
            if c.current_table == Some(table_id) {
                (
                    ClientV {
                        message: reason + " \u{2014} "@ + result_word(c, winner)
                            + " Press Esc to return."@,
                        game_active: false,
                        ..c
                    },
                    seq![EffectV::Play(Cue::Checkmate)],
                )
            } else {
                (c, seq![])
            }
        },
        ServerMsgV::MainBoardUpdate { .. } => (c, seq![]),
        ServerMsgV::ChatMessage { sender, body, kind } => (
            ClientV {
                chat: ChatV { messages: c.chat.messages.push((sender, body, kind)), ..c.chat },
                ..c
            },
            seq![],
        ),
    }
}

/// `v` without the players with id `id`.
fn drop_players(v: &mut Vec<PlayerInfo>, id: u32)
    ensures
        players_view(final(v)@) == players_without(players_view(old(v)@), id),
{
    let mut all: Vec<PlayerInfo> = Vec::new();
    std::mem::swap(&mut all, v);
    let ghost orig = players_view(all@);
    let ghost mut k: int = 0;
    assert(orig.take(0) =~= seq![]);
    assert(players_view(v@) =~= seq![]);
    while all.len() > 0
        invariant
            0 <= k <= orig.len(),
            players_view(all@) == orig.skip(k),
            players_view(v@) == players_without(orig.take(k), id),
        decreases all.len(),
    {
        let ghost before = all@;
        assert(players_view(before).len() == before.len());
        let p = all.remove(0);
        assert(all@ =~= before.subrange(1, before.len() as int));
        assert(players_view(before)[0] == orig.skip(k)[0]);
        assert(orig.take(k + 1).drop_last() =~= orig.take(k));
        let ghost pv = p@;
        let ghost vb = v@;
        if p.id != id {
            v.push(p);
            assert(players_view(v@) =~= players_view(vb).push(pv));
        }
        proof {
            let k0 = k;
            k = k + 1;
            assert forall|j: int| 0 <= j < all@.len() implies players_view(all@)[j] == orig.skip(
                k,
            )[j] by {
                assert(players_view(before)[j + 1] == orig.skip(k0)[j + 1]);
            }
        }
        assert(players_view(all@) =~= orig.skip(k));
        assert(players_view(v@) =~= players_without(orig.take(k), id));
    }
    assert(orig.take(k) =~= orig);
}

/// `v` without the tables with id `id`.
fn drop_tables(v: &mut Vec<TableInfo>, id: u32)
    ensures
        tables_view(final(v)@) == tables_without(tables_view(old(v)@), id),
{
    let mut all: Vec<TableInfo> = Vec::new();
    std::mem::swap(&mut all, v);
    let ghost orig = tables_view(all@);
    let ghost mut k: int = 0;
    assert(orig.take(0) =~= seq![]);
    assert(tables_view(v@) =~= seq![]);
    while all.len() > 0
        invariant
            0 <= k <= orig.len(),
            tables_view(all@) == orig.skip(k),
            tables_view(v@) == tables_without(orig.take(k), id),
        decreases all.len(),
    {
        let ghost before = all@;
        assert(tables_view(before).len() == before.len());
        let t = all.remove(0);
        assert(all@ =~= before.subrange(1, before.len() as int));
        assert(tables_view(before)[0] == orig.skip(k)[0]);
        assert(orig.take(k + 1).drop_last() =~= orig.take(k));
        let ghost tv = t@;
        let ghost vb = v@;
        if t.id != id {
            v.push(t);
            assert(tables_view(v@) =~= tables_view(vb).push(tv));
        }
        proof {
            let k0 = k;
            k = k + 1;
            assert forall|j: int| 0 <= j < all@.len() implies tables_view(all@)[j] == orig.skip(
                k,
            )[j] by {
                assert(tables_view(before)[j + 1] == orig.skip(k0)[j + 1]);
            }
        }
        assert(tables_view(all@) =~= orig.skip(k));
        assert(tables_view(v@) =~= tables_without(orig.take(k), id));
    }
    assert(orig.take(k) =~= orig);
}

/// Replaces the first table with `t`'s id by `t`.
fn put_table_info(v: &mut Vec<TableInfo>, t: TableInfo)
    ensures
        tables_view(final(v)@) == tables_with(tables_view(old(v)@), t@),
{
    let ghost tv = tables_view(v@);
    let mut i: usize = 0;
    while i < v.len()
        invariant
            i <= v.len(),
            tables_view(v@) == tv,
            tv == tables_view(old(v)@),
            table_at(tv, t.id, i as int) == table_at(tv, t.id, 0),
        decreases v.len() - i,
    {
        assert(tv[i as int] == v@[i as int]@);
        if v[i].id == t.id {
            assert(tv[i as int].id == t.id);
            assert(table_at(tv, t.id, i as int) == i);
            let ghost tw = t@;
            let _ = v.remove(i);
            v.insert(i, t);
            assert(tables_view(v@) =~= tv.update(i as int, tw));
            return ;
        }
        i += 1;
    }
}

/// Reads a board from FEN text, keeping `board` when the text is not FEN.
fn board_or(fen: &String, board: Position) -> (b: Position)
    ensures
        b == board_from(fen@, board),
{
    match Position::from_fen(fen.as_str()) {
        Some(p) => p,
        None => board,
    }
}

impl Client {
    /// Whether the side to move on the board is the user's.
    pub fn is_my_turn(&self) -> (r: bool)
        ensures
            r == my_turn(self@),
    {
        let my_id = match self.my_id {
            Some(id) => id,
            None => {
                return false;
            },
        };
        match self.board.side_to_move {
            Color::White => self.live_white == Some(my_id),
            Color::Black => self.live_black == Some(my_id),
        }
    }

    /// Whether a game is going with the user in one of its seats.
    pub fn am_playing(&self) -> (r: bool)
        ensures
            r == (self.game_active && (self.live_white == self.my_id || self.live_black
                == self.my_id)),
    {
        self.game_active && (self.live_white == self.my_id || self.live_black == self.my_id)
    }

    /// Answers a message from the server.
    pub fn on_server_msg(&mut self, msg: ServerMsg) -> (fx: Vec<Effect>)
        ensures
            final(self)@ == on_message(old(self)@, msg@).0,
            effects_view(fx@) == on_message(old(self)@, msg@).1,
    {
        let mut fx: Vec<Effect> = Vec::new();
        assert(effects_view(fx@) =~= seq![]);
        match msg {
            ServerMsg::Welcome { your_id } => {
                self.my_id = Some(your_id);
                fx.push(Effect::Send(ClientMsg::SetName { name: clone_string(&self.player_name) }));
                fx.push(Effect::Send(ClientMsg::ListRooms));
                self.screen = Screen::RoomBrowser;
                let mut m = "Connected as ".to_owned();
                append_str(&mut m, self.player_name.as_str());
                append_str(&mut m, ". Browse rooms or create one.");
                self.message = m;
                assert(effects_view(fx@) =~= on_message(old(self)@, msg@).1);
            },
            ServerMsg::Error { msg: err } => {
                let mut m = "Server: ".to_owned();
                append_str(&mut m, err.as_str());
                self.message = m;
            },
            ServerMsg::RoomList { rooms } => {
                self.room_list = rooms;
                self.room_selection = 0;
            },
            ServerMsg::RoomJoined { room, players, tables } => {
                self.current_room = Some(room);
                self.room_players = players;
                self.tables = tables;
                self.player_selection = 0;
                self.table_selection = 0;
                self.chat = ChatState::new();
                self.screen = Screen::RoomLobby;
                self.message = "[t] new table, Enter=join table, Tab=chat, Esc=leave".to_owned();
            },
            ServerMsg::PlayerJoined { player } => {
                let ghost before = self.room_players@;
                let ghost pv = player@;
                self.room_players.push(player);
                assert(players_view(self.room_players@) =~= players_view(before).push(pv));
            },
            ServerMsg::PlayerLeft { player_id } => {
                drop_players(&mut self.room_players, player_id);
            },
            ServerMsg::TableCreated { table } => {
                let ghost before = self.tables@;
                let ghost tv = table@;
                self.tables.push(table);
                assert(tables_view(self.tables@) =~= tables_view(before).push(tv));
            },
            ServerMsg::TableUpdated { table } => {
                put_table_info(&mut self.tables, table);
            },
            ServerMsg::TableRemoved { table_id } => {
                drop_tables(&mut self.tables, table_id);
            },
            ServerMsg::TableJoined { table, fen } => {
                self.current_table = Some(table.id);
                self.board = board_or(&fen, self.board);
                self.screen = Screen::LiveGame;
                self.message = "At the table. Waiting for game...".to_owned();
            },
            ServerMsg::GameStarted { table_id, white, black, fen, time_control } => {
                let ghost c0 = self@;
                self.live_white = Some(white);
                self.live_black = Some(black);
                self.game_active = true;
                self.board = board_or(&fen, self.board);
                self.selected_sq = None;
                self.highlights = Vec::new();
                self.cursor = 28;
                if self.current_table == Some(table_id) {
                    self.screen = Screen::LiveGame;
                    let mut m = "Game started! You are ".to_owned();
                    let colour = if Some(white) == self.my_id {
                        "White"
                    } else if Some(black) == self.my_id {
                        "Black"
                    } else {
                        "Spectator"
                    };
                    append_str(&mut m, colour);
                    append_str(&mut m, ".");
                    self.message = m;
                }
                assert(self.highlights@ =~= seq![]);
            },
            ServerMsg::MoveMade { table_id, uci, fen, white_time_ms, black_time_ms } => {
                if self.current_table == Some(table_id) {
                    match Position::from_fen(fen.as_str()) {
                        Some(pos) => {
                            let check = pos.in_check(pos.side_to_move);
                            fx.push(
                                Effect::Play(
                                    if check {
                                        Cue::Check
                                    } else {
                                        Cue::Move
                                    },
                                ),
                            );
                            self.board = pos;
                        },
                        None => {},
                    }
                    self.selected_sq = None;
                    self.highlights = Vec::new();
                    assert(self.highlights@ =~= seq![]);
                    if self.is_my_turn() {
                        self.message = "Your move!".to_owned();
                    } else {
                        self.message = "Opponent's turn...".to_owned();
                    }
                    assert(effects_view(fx@) =~= on_message(old(self)@, msg@).1);
                }
            },
            ServerMsg::GameOver { table_id, reason, winner } => {
                if self.current_table == Some(table_id) {
                    let result = match winner {
                        Some(id) => if Some(id) == self.my_id {
                            "You win!"
                        } else {
                            "You lose."
                        },
                        None => "Draw.",
                    };
                    fx.push(Effect::Play(Cue::Checkmate));
                    let mut m = reason;
                    append_str(&mut m, " \u{2014} ");
                    append_str(&mut m, result);
                    append_str(&mut m, " Press Esc to return.");
                    self.message = m;
                    self.game_active = false;
                    assert(effects_view(fx@) =~= on_message(old(self)@, msg@).1);
                }
            },
            ServerMsg::MainBoardUpdate { mode, fen } => {},
            ServerMsg::ChatMessage { sender, body, kind } => {
                let ghost before = self.chat@.messages;
                let ghost mv = (sender@, body@, kind);
                self.chat.messages.push((sender, body, kind));
                assert(self.chat@.messages =~= before.push(mv));
            },
        }
        fx
    }
}

// ── Puzzles ────────────────────────────────────────────────────────

/// The name of a colour as the client shows it.
pub open spec fn colour_name(c: Color) -> Seq<char> {
    match c {
        Color::White => "White"@,
        Color::Black => "Black"@,
    }
}

/// Sets up the puzzle at the current position of the queue: its position
/// with the first move of its line played, the cursor in the centre, and a
/// line saying which puzzle it is and who is to play. Nothing changes when
/// there is no such puzzle or its FEN does not read.
pub open spec fn load_puzzle(c: ClientV) -> ClientV {
    if c.puzzle_pos < c.puzzle_queue.len() {
        let p = c.puzzle_queue[c.puzzle_pos as int];
        match spec_from_fen(p.fen) {
            None => c,
            Some(pos0) => {
                let pos = if p.moves.len() > 0 {
                    match spec_from_uci(encode_utf8(p.moves[0])) {
                        Some(mv) => spec_make_move(pos0, mv),
                        None => pos0,
                    }
                } else {
                    pos0
                };
                ClientV {
                    board: pos,
                    cursor: 28,
                    selected_sq: None,
                    highlights: seq![],
                    puzzle_move_index: 1,
                    message: "Puzzle "@ + decimal_of((c.puzzle_pos + 1) as nat) + "/"@ + decimal_of(
                        c.puzzle_queue.len(),
                    ) + " (rating: "@ + decimal_of(p.rating as nat) + ") \u{2014} Play as "@
                        + colour_name(pos.side_to_move) + ". Select a piece."@,
                    ..c
                }
            },
        }
    } else {
        c
    }
}

/// The targets of the moves in `ms` from square `from`, in order.
pub open spec fn targets_from(ms: Seq<Move>, from: u8) -> Seq<u8>
    decreases ms.len(),
{
    if ms.len() == 0 {
        seq![]
    } else {
        targets_from(ms.drop_last(), from) + if ms.last().from == from {
            seq![ms.last().to]
        } else {
            seq![]
        }
    }
}

/// Selects the piece on `sq`: the squares its legal moves reach light up.
pub open spec fn select_piece(c: ClientV, sq: u8) -> ClientV {
    let hs = targets_from(spec_legal_moves(c.board), sq);
    ClientV {
        selected_sq: Some(sq),
        highlights: hs,
        message: decimal_of(hs.len()) + " legal moves. Move cursor and Enter."@,
        ..c
    }
}

/// The index of the first move in `ms` at or after `i` from `from` to `to`
/// that promotes to nothing or to a queen, or -1.
pub open spec fn move_index(ms: Seq<Move>, from: u8, to: u8, i: int) -> int
    decreases ms.len() - i,
{
    if i < 0 || i >= ms.len() {
        -1
    } else if ms[i].from == from && ms[i].to == to && (ms[i].promotion is None
        || ms[i].promotion == Some(QUEEN)) {
        i
    } else {
        move_index(ms, from, to, i + 1)
    }
}

/// Whether a piece of the side to move stands on `sq`.
pub open spec fn own_piece_at(c: ClientV, sq: u8) -> bool {
    match spec_piece_at(c.board, sq as int) {
        Some((_, colour)) => colour == c.board.side_to_move,
        None => false,
    }
}

/// The number of moves of the current puzzle's line, 0 past the queue's end.
pub open spec fn line_len(c: ClientV) -> int {
    if c.puzzle_pos < c.puzzle_queue.len() {
        c.puzzle_queue[c.puzzle_pos as int].moves.len() as int
    } else {
        0
    }
}

/// Enter on a puzzle: select a piece of the side to move, drop the selection,
/// or try the move from the selected square to the cursor (a promotion counts
/// as a queen). A move that is the next one of the puzzle's line is played,
/// then the line's reply; the last move of the line solves the puzzle.
pub open spec fn puzzle_select(c: ClientV) -> (ClientV, Seq<EffectV>) {
    let sq = c.cursor;
    match c.selected_sq {
        None => if own_piece_at(c, sq) {
            (select_piece(c, sq), seq![])
        } else {
            (c, seq![])
        },
        Some(from) => if from == sq {
            (
                ClientV {
                    selected_sq: None,
                    highlights: seq![],
                    message: "Deselected. Pick a piece."@,
                    ..c
                },
                seq![],
            )
        } else {
            let legal = spec_legal_moves(c.board);
            let k = move_index(legal, from, sq, 0);
            if k < 0 {
                if own_piece_at(c, sq) {
                    (select_piece(c, sq), seq![])
                } else {
                    (ClientV { message: "Illegal move. Try again."@, ..c }, seq![])
                }
            } else {
                let mv = legal[k];
                let idx = c.puzzle_move_index;
                let correct = idx < line_len(c) && spec_to_uci(mv)
                    == c.puzzle_queue[c.puzzle_pos as int].moves[idx as int];
                if !correct {
                    (
                        ClientV {
                            selected_sq: None,
                            highlights: seq![],
                            message: "Wrong move. Try again or [H] for hint."@,
                            ..c
                        },
                        seq![EffectV::Play(Cue::Wrong)],
                    )
                } else {
                    let capture = spec_piece_at(c.board, mv.to as int) is Some;
                    let b1 = spec_make_move(c.board, mv);
                    let check = spec_in_check(b1, b1.side_to_move);
                    let mate = check && spec_legal_moves(b1).len() == 0;
                    let idx1 = (idx + 1) as usize;
                    let c1 = ClientV {
                        board: b1,
                        selected_sq: None,
                        highlights: seq![],
                        puzzle_move_index: idx1,
                        ..c
                    };
                    if idx1 >= line_len(c) {
                        (
                            ClientV {
                                score_correct: (c.score_correct + 1) as usize,
                                score_total: (c.score_total + 1) as usize,
                                message: "Correct! Puzzle solved! Press [n] for next."@,
                                ..c1
                            },
                            seq![
                                EffectV::Play(
                                    if mate {
                                        Cue::Checkmate
                                    } else {
                                        Cue::SessionComplete
                                    },
                                ),
                            ],
                        )
                    } else {
                        let cue = if mate {
                            Cue::Checkmate
                        } else if check {
                            Cue::Check
                        } else if capture {
                            Cue::Capture
                        } else {
                            Cue::Correct
                        };
                        let reply = spec_from_uci(
                            encode_utf8(c.puzzle_queue[c.puzzle_pos as int].moves[idx1 as int]),
                        );
                        let c2 = match reply {
                            Some(om) => ClientV {
                                board: spec_make_move(b1, om),
                                puzzle_move_index: (idx1 + 1) as usize,
                                ..c1
                            },
                            None => c1,
                        };
                        (
                            ClientV { message: "Correct! Keep going..."@, ..c2 },
                            seq![EffectV::Play(cue)],
                        )
                    }
                }
            }
        },
    }
}

/// Moves on to the next puzzle of the queue, or to the results after the last.
pub open spec fn advance_puzzle(c: ClientV) -> ClientV {
    let c1 = ClientV {
        puzzle_pos: (c.puzzle_pos + 1) as usize,
        selected_sq: None,
        highlights: seq![],
        ..c
    };
    if c1.puzzle_pos >= c.puzzle_queue.len() {
        ClientV {
            screen: Screen::Results,
            message: "Session complete! "@ + decimal_of(c.score_correct as nat) + "/"@ + decimal_of(
                c.score_total as nat,
            ) + " correct."@,
            ..c1
        }
    } else {
        load_puzzle(c1)
    }
}

/// The client's counters can be stepped: none has reached the largest `usize`
/// (the move index not its predecessor), and the cursor is on the board.
pub open spec fn client_ok(c: ClientV) -> bool {
    &&& c.cursor < 64
    &&& c.score_correct < usize::MAX
    &&& c.score_total < usize::MAX
    &&& c.puzzle_pos < usize::MAX
    &&& c.puzzle_move_index < usize::MAX - 1
}

impl Client {
    /// Sets up the current puzzle of the queue (see `load_puzzle`).
    pub fn load_current_puzzle(&mut self)
        ensures
            final(self)@ == load_puzzle(old(self)@),
    {
        if self.puzzle_pos >= self.puzzle_queue.len() {
            return ;
        }
        let p = &self.puzzle_queue[self.puzzle_pos];
        assert(self@.puzzle_queue[self.puzzle_pos as int] == p@);
        let pos0 = match Position::from_fen(p.fen.as_str()) {
            Some(x) => x,
            None => {
                return ;
            },
        };
        let mut pos = pos0;
        if p.moves.len() > 0 {
            assert(p@.moves[0] == p.moves@[0]@);
            match Move::from_uci(p.moves[0].as_str()) {
                Some(mv) => {
                    proof {
                        crate::board::lemma_uci_in_range(encode_utf8(p.moves@[0]@));
                    }
                    pos = pos0.make_move(mv);
                },
                None => {},
            }
        }
        let mut m = "Puzzle ".to_owned();
        push_decimal(&mut m, (self.puzzle_pos + 1) as u64);
        append_str(&mut m, "/");
        push_decimal(&mut m, self.puzzle_queue.len() as u64);
        append_str(&mut m, " (rating: ");
        push_decimal(&mut m, p.rating as u64);
        append_str(&mut m, ") \u{2014} Play as ");
        append_str(
            &mut m,
            match pos.side_to_move {
                Color::White => "White",
                Color::Black => "Black",
            },
        );
        append_str(&mut m, ". Select a piece.");
        self.board = pos;
        self.cursor = 28;
        self.selected_sq = None;
        self.highlights = Vec::new();
        self.puzzle_move_index = 1;
        self.message = m;
        assert(self.highlights@ =~= seq![]);
    }

    /// Selects the piece on `sq` (see `select_piece`).
    pub fn select_piece(&mut self, sq: u8)
        ensures
            final(self)@ == select_piece(old(self)@, sq),
    {
        let legal = self.board.legal_moves();
        let mut hs: Vec<u8> = Vec::new();
        let mut i: usize = 0;
        while i < legal.len()
            invariant
                i <= legal.len(),
                hs@ == targets_from(legal@.take(i as int), sq),
            decreases legal.len() - i,
        {
            assert(legal@.take(i + 1).drop_last() =~= legal@.take(i as int));
            if legal[i].from == sq {
                hs.push(legal[i].to);
            }
            assert(hs@ =~= targets_from(legal@.take(i + 1), sq));
            i += 1;
        }
        assert(legal@.take(i as int) =~= legal@);
        let mut m = String::new();
        push_decimal(&mut m, hs.len() as u64);
        append_str(&mut m, " legal moves. Move cursor and Enter.");
        self.selected_sq = Some(sq);
        self.highlights = hs;
        self.message = m;
        assert(self.message@ =~= decimal_of(hs@.len()) + " legal moves. Move cursor and Enter."@);
    }

    /// Moves on to the next puzzle (see `advance_puzzle`).
    pub fn advance_puzzle(&mut self)
        requires
            old(self).puzzle_pos < usize::MAX,
        ensures
            final(self)@ == advance_puzzle(old(self)@),
    {
        self.puzzle_pos = self.puzzle_pos + 1;
        self.selected_sq = None;
        self.highlights = Vec::new();
        assert(self.highlights@ =~= seq![]);
        if self.puzzle_pos >= self.puzzle_queue.len() {
            self.screen = Screen::Results;
            let mut m = "Session complete! ".to_owned();
            push_decimal(&mut m, self.score_correct as u64);
            append_str(&mut m, "/");
            push_decimal(&mut m, self.score_total as u64);
            append_str(&mut m, " correct.");
            self.message = m;
        } else {
            self.load_current_puzzle();
        }
    }

    /// Whether a piece of the side to move stands on `sq`.
    fn own_piece_at(&self, sq: u8) -> (r: bool)
        requires
            sq < 64,
        ensures
            r == own_piece_at(self@, sq),
    {
        match self.board.piece_at(sq) {
            Some((_, colour)) => colour == self.board.side_to_move,
            None => false,
        }
    }

    /// Enter on a puzzle (see `puzzle_select`).
    pub fn puzzle_select(&mut self) -> (fx: Vec<Effect>)
        requires
            client_ok(old(self)@),
        ensures
            final(self)@ == puzzle_select(old(self)@).0,
            effects_view(fx@) == puzzle_select(old(self)@).1,
    {
        let mut fx: Vec<Effect> = Vec::new();
        assert(effects_view(fx@) =~= seq![]);
        let sq = self.cursor;
        let from = match self.selected_sq {
            Some(f) => f,
            None => {
                if self.own_piece_at(sq) {
                    self.select_piece(sq);
                }
                return fx;
            },
        };
        if from == sq {
            self.selected_sq = None;
            self.highlights = Vec::new();
            assert(self.highlights@ =~= seq![]);
            self.message = "Deselected. Pick a piece.".to_owned();
            return fx;
        }
        let legal = self.board.legal_moves();
        let mut k: usize = 0;
        while k < legal.len()
            invariant
                k <= legal.len(),
                move_index(legal@, from, sq, k as int) == move_index(legal@, from, sq, 0),
            ensures
                k <= legal.len(),
                move_index(legal@, from, sq, k as int) == move_index(legal@, from, sq, 0),
                k < legal.len() ==> move_index(legal@, from, sq, k as int) == k,
            decreases legal.len() - k,
        {
            let m = legal[k];
            if m.from == from && m.to == sq && (m.promotion.is_none() || m.promotion == Some(QUEEN)) {
                break;
            }
            k += 1;
        }
        if k >= legal.len() {
            if self.own_piece_at(sq) {
                self.select_piece(sq);
            } else {
                self.message = "Illegal move. Try again.".to_owned();
            }
            return fx;
        }
        let mv = legal[k];
        assert(move_in_range(legal@[k as int]));
        let idx = self.puzzle_move_index;
        let correct = if self.puzzle_pos < self.puzzle_queue.len() {
            let p = &self.puzzle_queue[self.puzzle_pos];
            assert(self@.puzzle_queue[self.puzzle_pos as int] == p@);
            if idx < p.moves.len() {
                assert(p@.moves[idx as int] == p.moves@[idx as int]@);
                mv.to_uci() == p.moves[idx]
            } else {
                false
            }
        } else {
            false
        };
        if !correct {
            fx.push(Effect::Play(Cue::Wrong));
            self.selected_sq = None;
            self.highlights = Vec::new();
            assert(self.highlights@ =~= seq![]);
            self.message = "Wrong move. Try again or [H] for hint.".to_owned();
            assert(effects_view(fx@) =~= puzzle_select(old(self)@).1);
            return fx;
        }
        let capture = self.board.piece_at(mv.to).is_some();
        let b1 = self.board.make_move(mv);
        let check = b1.in_check(b1.side_to_move);
        let mate = b1.is_checkmate();
        self.board = b1;
        self.selected_sq = None;
        self.highlights = Vec::new();
        assert(self.highlights@ =~= seq![]);
        self.puzzle_move_index = idx + 1;
        let plen = if self.puzzle_pos < self.puzzle_queue.len() {
            self.puzzle_queue[self.puzzle_pos].moves.len()
        } else {
            0
        };
        assert(plen as int == line_len(old(self)@));
        if self.puzzle_move_index >= plen {
            self.score_correct = self.score_correct + 1;
            self.score_total = self.score_total + 1;
            fx.push(
                Effect::Play(
                    if mate {
                        Cue::Checkmate
                    } else {
                        Cue::SessionComplete
                    },
                ),
            );
            self.message = "Correct! Puzzle solved! Press [n] for next.".to_owned();
        } else {
            let cue = if mate {
                Cue::Checkmate
            } else if check {
                Cue::Check
            } else if capture {
                Cue::Capture
            } else {
                Cue::Correct
            };
            fx.push(Effect::Play(cue));
            let i1 = self.puzzle_move_index;
            let p = &self.puzzle_queue[self.puzzle_pos];
            assert(self@.puzzle_queue[self.puzzle_pos as int] == p@);
            assert(p@.moves[i1 as int] == p.moves@[i1 as int]@);
            match Move::from_uci(p.moves[i1].as_str()) {
                Some(om) => {
                    proof {
                        crate::board::lemma_uci_in_range(encode_utf8(p.moves@[i1 as int]@));
                    }
                    self.board = self.board.make_move(om);
                    self.puzzle_move_index = i1 + 1;
                },
                None => {},
            }
            self.message = "Correct! Keep going...".to_owned();
        }
        assert(effects_view(fx@) =~= puzzle_select(old(self)@).1);
        fx
    }
}

// ── Keys ───────────────────────────────────────────────────────────

/// The keys the client tells apart.
#[derive(Clone, Copy, Debug, PartialEq, Eq, Structural)]
pub enum Key {
    Char(char),
    Up,
    Down,
    Left,
    Right,
    Enter,
    Esc,
    Tab,
    Backspace,
    Delete,
    Other,
}

/// The menu's help line.
pub open spec fn menu_help() -> Seq<char> {
    "hjkl/arrows to navigate, Enter to select"@
}

/// The help line while typing a chat message.
pub open spec fn chat_help() -> Seq<char> {
    "Type message, Enter to send, Esc to stop"@
}

/// Whether a key moves the board cursor.
pub open spec fn is_nav(key: Key) -> bool {
    key == Key::Left || key == Key::Right || key == Key::Up || key == Key::Down || key == Key::Char(
        'h',
    ) || key == Key::Char('j') || key == Key::Char('k') || key == Key::Char('l')
}

/// The cursor after a key: one file or rank over, staying on the board.
pub open spec fn cursor_after(cursor: u8, key: Key) -> u8 {
    let file = cursor % 8;
    let rank = cursor / 8;
    if key == Key::Left || key == Key::Char('h') {
        if file > 0 {
            (cursor - 1) as u8
        } else {
            cursor
        }
    } else if key == Key::Right || key == Key::Char('l') {
        if file < 7 {
            (cursor + 1) as u8
        } else {
            cursor
        }
    } else if key == Key::Up || key == Key::Char('k') {
        if rank < 7 {
            (cursor + 8) as u8
        } else {
            cursor
        }
    } else if key == Key::Down || key == Key::Char('j') {
        if rank > 0 {
            (cursor - 8) as u8
        } else {
            cursor
        }
    } else {
        cursor
    }
}

/// A key on a puzzle.
pub open spec fn puzzle_key(c: ClientV, key: Key) -> (ClientV, Seq<EffectV>) {
    if is_nav(key) {
        (ClientV { cursor: cursor_after(c.cursor, key), ..c }, seq![])
    } else if key == Key::Enter {
        puzzle_select(c)
    } else if key == Key::Char('n') || key == Key::Char('N') {
        (advance_puzzle(ClientV { score_total: (c.score_total + 1) as usize, ..c }), seq![])
    } else if key == Key::Char('H') {
        if c.puzzle_pos < c.puzzle_queue.len() && c.puzzle_move_index < line_len(c) {
            let hint = c.puzzle_queue[c.puzzle_pos as int].moves[c.puzzle_move_index as int];
            let c1 = ClientV { message: "Hint: "@ + hint, ..c };
            (
                match spec_from_uci(encode_utf8(hint)) {
                    Some(mv) => ClientV { highlights: seq![mv.from, mv.to], ..c1 },
                    None => c1,
                },
                seq![EffectV::Play(Cue::Hint)],
            )
        } else {
            (c, seq![])
        }
    } else if key == Key::Esc || key == Key::Char('q') {
        (
            ClientV {
                selected_sq: None,
                highlights: seq![],
                screen: Screen::ThemePicker,
                message: "Pick a tactic theme"@,
                ..c
            },
            seq![],
        )
    } else {
        (c, seq![])
    }
}

/// Back to the menu.
pub open spec fn to_menu(c: ClientV) -> ClientV {
    ClientV { screen: Screen::Menu, message: menu_help(), ..c }
}

/// A key on the analysis board.
pub open spec fn analysis_key(c: ClientV, key: Key) -> ClientV {
    if is_nav(key) {
        ClientV { cursor: cursor_after(c.cursor, key), ..c }
    } else if key == Key::Esc || key == Key::Char('q') {
        to_menu(c)
    } else {
        c
    }
}

/// A key on the results screen.
pub open spec fn results_key(c: ClientV, key: Key) -> ClientV {
    if key == Key::Enter || key == Key::Char('q') || key == Key::Char('Q') {
        to_menu(c)
    } else {
        c
    }
}

/// How many entries the main menu has.
pub const MENU_LEN: usize = 5;

/// The main menu's entries, top to bottom; a key on the menu acts on the
/// selected one by its index.
pub fn menu_items() -> (items: [&'static str; MENU_LEN])
    ensures
        items@ == seq!["Practice Tactics", "View Starting Position", "Go Online", "Settings", "Quit"],
{
    let items = ["Practice Tactics", "View Starting Position", "Go Online", "Settings", "Quit"];
    assert(items@ =~= seq![items[0], items[1], items[2], items[3], items[4]]);
    items
}

/// A key on the menu (see `menu_items`): its items are practice tactics, the
/// starting position, going online, settings and quitting.
pub open spec fn menu_key(c: ClientV, key: Key, puzzles_loaded: bool, online: bool) -> (
    ClientV,
    Seq<EffectV>,
) {
    if key == Key::Char('q') || key == Key::Char('Q') {
        (ClientV { running: false, ..c }, seq![])
    } else if key == Key::Up || key == Key::Char('k') {
        (
            ClientV {
                menu_selection: if c.menu_selection > 0 {
                    (c.menu_selection - 1) as usize
                } else {
                    c.menu_selection
                },
                ..c
            },
            seq![],
        )
    } else if key == Key::Down || key == Key::Char('j') {
        (
            ClientV {
                menu_selection: if c.menu_selection < MENU_LEN - 1 {
                    (c.menu_selection + 1) as usize
                } else {
                    c.menu_selection
                },
                ..c
            },
            seq![],
        )
    } else if key == Key::Enter || key == Key::Char('l') {
        if c.menu_selection == 0 {
            if !puzzles_loaded {
                (
                    ClientV {
                        message: "No puzzles loaded. Place lichess_puzzles.csv in data/"@,
                        ..c
                    },
                    seq![],
                )
            } else {
                (
                    ClientV {
                        screen: Screen::ThemePicker,
                        theme_selection: 0,
                        message: "Pick a tactic theme"@,
                        ..c
                    },
                    seq![],
                )
            }
        } else if c.menu_selection == 1 {
            (
                ClientV {
                    screen: Screen::Analysis,
                    board: start_position(),
                    message: "hjkl/arrows to move cursor. Esc for menu."@,
                    ..c
                },
                seq![],
            )
        } else if c.menu_selection == 2 {
            if online {
                (
                    ClientV {
                        screen: Screen::RoomBrowser,
                        message: "Browse rooms or create one."@,
                        ..c
                    },
                    seq![EffectV::Send(ClientMsgV::ListRooms), EffectV::RefreshServers],
                )
            } else {
                (c, seq![EffectV::GoOnline])
            }
        } else if c.menu_selection == 3 {
            (
                ClientV {
                    settings_selection: 0,
                    screen: Screen::Settings,
                    message: "Settings"@,
                    ..c
                },
                seq![],
            )
        } else if c.menu_selection == 4 {
            (ClientV { running: false, ..c }, seq![])
        } else {
            (c, seq![])
        }
    } else {
        (c, seq![])
    }
}

/// A key on the theme picker.
pub open spec fn theme_key(c: ClientV, key: Key) -> (ClientV, Seq<EffectV>) {
    if key == Key::Up || key == Key::Char('k') {
        (
            ClientV {
                theme_selection: if c.theme_selection > 0 {
                    (c.theme_selection - 1) as usize
                } else {
                    c.theme_selection
                },
                ..c
            },
            seq![],
        )
    } else if key == Key::Down || key == Key::Char('j') {
        (
            ClientV {
                theme_selection: if c.theme_selection < 26 {
                    (c.theme_selection + 1) as usize
                } else {
                    c.theme_selection
                },
                ..c
            },
            seq![],
        )
    } else if key == Key::Enter || key == Key::Char('l') {
        (c, seq![EffectV::LoadTheme(c.theme_selection)])
    } else if key == Key::Esc || key == Key::Char('q') || key == Key::Char('h') {
        (to_menu(c), seq![])
    } else {
        (c, seq![])
    }
}

/// A key on the room browser, which lists the rooms of this server and then
/// `remote_count` other servers.
pub open spec fn browser_key(c: ClientV, key: Key, remote_count: usize) -> (ClientV, Seq<EffectV>) {
    let total = c.room_list.len() + remote_count;
    if key == Key::Up || key == Key::Char('k') {
        (
            ClientV {
                room_selection: if c.room_selection > 0 {
                    (c.room_selection - 1) as usize
                } else {
                    c.room_selection
                },
                ..c
            },
            seq![],
        )
    } else if key == Key::Down || key == Key::Char('j') {
        (
            ClientV {
                room_selection: if total > 0 && c.room_selection < total - 1 {
                    (c.room_selection + 1) as usize
                } else {
                    c.room_selection
                },
                ..c
            },
            seq![],
        )
    } else if key == Key::Enter || key == Key::Char('l') {
        if c.room_selection < c.room_list.len() {
            (
                c,
                seq![
                    EffectV::Send(
                        ClientMsgV::JoinRoom { room_id: c.room_list[c.room_selection as int].id },
                    ),
                ],
            )
        } else {
            (c, seq![EffectV::ConnectRemote((c.room_selection - c.room_list.len()) as usize)])
        }
    } else if key == Key::Char('n') || key == Key::Char('N') {
        (c, seq![EffectV::Send(ClientMsgV::CreateRoom { name: c.player_name + "'s room"@ })])
    } else if key == Key::Char('r') {
        (
            ClientV { message: "Refreshed."@, ..c },
            seq![EffectV::Send(ClientMsgV::ListRooms), EffectV::RefreshServers],
        )
    } else if key == Key::Esc || key == Key::Char('q') {
        (to_menu(c), seq![])
    } else {
        (c, seq![])
    }
}

/// A key while typing a chat line: Enter sends a non-empty line, characters
/// are typed, Backspace takes the last one back, Esc stops typing.
pub open spec fn chat_key(c: ClientV, key: Key) -> (ClientV, Seq<EffectV>) {
    match key {
        Key::Enter => if c.chat.input.len() > 0 {
            (
                ClientV { chat: ChatV { input: seq![], ..c.chat }, ..c },
                seq![EffectV::Send(ClientMsgV::SendChat { body: c.chat.input })],
            )
        } else {
            (c, seq![])
        },
        Key::Char(ch) => (ClientV { chat: ChatV { input: c.chat.input.push(ch), ..c.chat }, ..c }, seq![]),
        Key::Backspace => (
            ClientV {
                chat: ChatV {
                    input: if c.chat.input.len() > 0 {
                        c.chat.input.drop_last()
                    } else {
                        c.chat.input
                    },
                    ..c.chat
                },
                ..c
            },
            seq![],
        ),
        Key::Esc => (ClientV { chat: ChatV { typing: false, ..c.chat }, ..c }, seq![]),
        _ => (c, seq![]),
    }
}

/// A key in a room's lobby.
pub open spec fn lobby_key(c: ClientV, key: Key) -> (ClientV, Seq<EffectV>) {
    if c.chat.typing {
        let r = chat_key(c, key);
        if key == Key::Esc {
            (ClientV { message: lobby_help(), ..r.0 }, r.1)
        } else {
            r
        }
    } else if key == Key::Tab {
        (ClientV { chat: ChatV { typing: true, ..c.chat }, message: chat_help(), ..c }, seq![])
    } else if key == Key::Up || key == Key::Char('k') {
        (
            ClientV {
                table_selection: if c.table_selection > 0 {
                    (c.table_selection - 1) as usize
                } else {
                    c.table_selection
                },
                ..c
            },
            seq![],
        )
    } else if key == Key::Down || key == Key::Char('j') {
        (
            ClientV {
                table_selection: if c.tables.len() > 0 && c.table_selection < c.tables.len() - 1 {
                    (c.table_selection + 1) as usize
                } else {
                    c.table_selection
                },
                ..c
            },
            seq![],
        )
    } else if key == Key::Char('t') || key == Key::Char('T') {
        (
            c,
            seq![EffectV::Send(ClientMsgV::CreateTable { time_control: TimeControl::Unlimited })],
        )
    } else if key == Key::Enter || key == Key::Char('l') {
        if c.table_selection < c.tables.len() {
            (
                c,
                seq![
                    EffectV::Send(
                        ClientMsgV::JoinTable { table_id: c.tables[c.table_selection as int].id },
                    ),
                ],
            )
        } else {
            (c, seq![])
        }
    } else if key == Key::Esc || key == Key::Char('q') {
        (
            ClientV {
                current_room: None,
                room_players: seq![],
                tables: seq![],
                screen: Screen::RoomBrowser,
                message: "Browse rooms or create one."@,
                ..c
            },
            seq![EffectV::Send(ClientMsgV::LeaveRoom), EffectV::Send(ClientMsgV::ListRooms)],
        )
    } else {
        (c, seq![])
    }
}

/// Enter at the live board: select a piece of the side to move, drop the
/// selection, or send the move from the selected square to the cursor (a
/// promotion goes to a queen).
pub open spec fn live_select(c: ClientV) -> (ClientV, Seq<EffectV>) {
    let sq = c.cursor;
    match c.selected_sq {
        None => if own_piece_at(c, sq) {
            (select_piece(c, sq), seq![])
        } else {
            (c, seq![])
        },
        Some(from) => if from == sq {
            (ClientV { selected_sq: None, highlights: seq![], ..c }, seq![])
        } else {
            let legal = spec_legal_moves(c.board);
            let k = move_index(legal, from, sq, 0);
            if k >= 0 {
                (
                    ClientV {
                        selected_sq: None,
                        highlights: seq![],
                        message: "Move sent..."@,
                        ..c
                    },
                    seq![EffectV::Send(ClientMsgV::MakeMove { uci: spec_to_uci(legal[k]) })],
                )
            } else if own_piece_at(c, sq) {
                (select_piece(c, sq), seq![])
            } else {
                (c, seq![])
            }
        },
    }
}

/// A key at a live table.
pub open spec fn live_key(c: ClientV, key: Key) -> (ClientV, Seq<EffectV>) {
    if c.chat.typing {
        chat_key(c, key)
    } else if !c.game_active {
        if key == Key::Esc || key == Key::Char('q') {
            (
                ClientV {
                    current_table: None,
                    screen: Screen::RoomLobby,
                    message: lobby_help(),
                    ..c
                },
                seq![EffectV::Send(ClientMsgV::LeaveTable)],
            )
        } else {
            (c, seq![])
        }
    } else if is_nav(key) {
        if my_turn(c) {
            (ClientV { cursor: cursor_after(c.cursor, key), ..c }, seq![])
        } else {
            (c, seq![])
        }
    } else if key == Key::Enter {
        if my_turn(c) {
            live_select(c)
        } else {
            (c, seq![])
        }
    } else if key == Key::Tab {
        (ClientV { chat: ChatV { typing: true, ..c.chat }, message: chat_help(), ..c }, seq![])
    } else if key == Key::Char('r') || key == Key::Char('R') {
        (c, seq![EffectV::Send(ClientMsgV::Resign)])
    } else if key == Key::Esc {
        (
            ClientV {
                current_table: None,
                game_active: false,
                screen: Screen::RoomLobby,
                message: lobby_help(),
                ..c
            },
            seq![EffectV::Send(ClientMsgV::LeaveTable)],
        )
    } else {
        (c, seq![])
    }
}

/// Takes the last character off `s`, if any.
pub(crate) fn drop_last_char(s: &mut String)
    ensures
        final(s)@ == if old(s)@.len() > 0 {
            old(s)@.drop_last()
        } else {
            old(s)@
        },
{
    let cs = crate::text::chars_of(s.as_str());
    if cs.len() == 0 {
        return ;
    }
    let mut t = String::new();
    let mut i: usize = 0;
    while i + 1 < cs.len()
        invariant
            i + 1 <= cs.len(),
            cs@ == old(s)@,
            t@ == cs@.take(i as int),
        decreases cs.len() - i,
    {
        crate::text::push_char(&mut t, cs[i]);
        assert(cs@.take(i + 1) =~= cs@.take(i as int).push(cs@[i as int]));
        i += 1;
    }
    assert(cs@.take(i as int) =~= cs@.drop_last());
    *s = t;
}

impl Client {
    /// Moves the board cursor.
    pub fn move_cursor(&mut self, key: Key)
        ensures
            final(self)@ == (ClientV { cursor: cursor_after(old(self).cursor, key), ..old(self)@ }),
    {
        let file = self.cursor % 8;
        let rank = self.cursor / 8;
        match key {
            Key::Left | Key::Char('h') => {
                if file > 0 {
                    self.cursor = self.cursor - 1;
                }
            },
            Key::Right | Key::Char('l') => {
                if file < 7 {
                    self.cursor = self.cursor + 1;
                }
            },
            Key::Up | Key::Char('k') => {
                if rank < 7 {
                    self.cursor = self.cursor + 8;
                }
            },
            Key::Down | Key::Char('j') => {
                if rank > 0 {
                    self.cursor = self.cursor - 8;
                }
            },
            _ => {},
        }
    }

    /// Shows the lines of the queue's puzzles and starts with the first, or
    /// says that the theme has none.
    pub fn start_puzzles(&mut self, puzzles: Vec<Puzzle>, theme_name: &str)
        ensures
            puzzles@.len() == 0 ==> final(self)@ == (ClientV {
                message: "No puzzles found for '"@ + theme_name@ + "'"@,
                ..old(self)@
            }),
            puzzles@.len() > 0 ==> final(self)@ == (ClientV {
                screen: Screen::Puzzle,
                ..load_puzzle(
                    ClientV {
                        puzzle_queue: puzzles_view(puzzles@),
                        puzzle_pos: 0,
                        score_correct: 0,
                        score_total: 0,
                        ..old(self)@
                    },
                )
            }),
    {
        if puzzles.len() == 0 {
            let mut m = "No puzzles found for '".to_owned();
            append_str(&mut m, theme_name);
            append_str(&mut m, "'");
            self.message = m;
        } else {
            self.puzzle_queue = puzzles;
            self.puzzle_pos = 0;
            self.score_correct = 0;
            self.score_total = 0;
            self.load_current_puzzle();
            self.screen = Screen::Puzzle;
        }
    }

    /// A key on a puzzle (see `puzzle_key`).
    pub fn puzzle_key(&mut self, key: Key) -> (fx: Vec<Effect>)
        requires
            client_ok(old(self)@),
        ensures
            final(self)@ == puzzle_key(old(self)@, key).0,
            effects_view(fx@) == puzzle_key(old(self)@, key).1,
    {
        let mut fx: Vec<Effect> = Vec::new();
        assert(effects_view(fx@) =~= seq![]);
        match key {
            Key::Left | Key::Right | Key::Up | Key::Down | Key::Char('h') | Key::Char('j')
            | Key::Char('k') | Key::Char('l') => {
                self.move_cursor(key);
            },
            Key::Enter => {
                fx = self.puzzle_select();
            },
            Key::Char('n') | Key::Char('N') => {
                self.score_total = self.score_total + 1;
                self.advance_puzzle();
            },
            Key::Char('H') => {
                if self.puzzle_pos < self.puzzle_queue.len() {
                    let idx = self.puzzle_move_index;
                    let p = &self.puzzle_queue[self.puzzle_pos];
                    assert(self@.puzzle_queue[self.puzzle_pos as int] == p@);
                    if idx < p.moves.len() {
                        assert(p@.moves[idx as int] == p.moves@[idx as int]@);
                        let mut m = "Hint: ".to_owned();
                        append_str(&mut m, p.moves[idx].as_str());
                        match Move::from_uci(p.moves[idx].as_str()) {
                            Some(mv) => {
                                let mut hs: Vec<u8> = Vec::new();
                                hs.push(mv.from);
                                hs.push(mv.to);
                                assert(hs@ =~= seq![mv.from, mv.to]);
                                self.highlights = hs;
                            },
                            None => {},
                        }
                        self.message = m;
                        fx.push(Effect::Play(Cue::Hint));
                        assert(effects_view(fx@) =~= seq![EffectV::Play(Cue::Hint)]);
                    }
                }
            },
            Key::Esc | Key::Char('q') => {
                self.selected_sq = None;
                self.highlights = Vec::new();
                assert(self.highlights@ =~= seq![]);
                self.screen = Screen::ThemePicker;
                self.message = "Pick a tactic theme".to_owned();
            },
            _ => {},
        }
        fx
    }

    /// A key on the analysis board.
    pub fn analysis_key(&mut self, key: Key)
        ensures
            final(self)@ == analysis_key(old(self)@, key),
    {
        match key {
            Key::Left | Key::Right | Key::Up | Key::Down | Key::Char('h') | Key::Char('j')
            | Key::Char('k') | Key::Char('l') => {
                self.move_cursor(key);
            },
            Key::Esc | Key::Char('q') => {
                self.screen = Screen::Menu;
                self.message = "hjkl/arrows to navigate, Enter to select".to_owned();
            },
            _ => {},
        }
    }

    /// A key on the results screen.
    pub fn results_key(&mut self, key: Key)
        ensures
            final(self)@ == results_key(old(self)@, key),
    {
        match key {
            Key::Enter | Key::Char('q') | Key::Char('Q') => {
                self.screen = Screen::Menu;
                self.message = "hjkl/arrows to navigate, Enter to select".to_owned();
            },
            _ => {},
        }
    }

    /// A key on the menu (see `menu_key`); `puzzles_loaded` tells whether a
    /// puzzle index is at hand, `online` whether a server connection is.
    pub fn menu_key(&mut self, key: Key, puzzles_loaded: bool, online: bool) -> (fx: Vec<Effect>)
        ensures
            final(self)@ == menu_key(old(self)@, key, puzzles_loaded, online).0,
            effects_view(fx@) == menu_key(old(self)@, key, puzzles_loaded, online).1,
    {
        let mut fx: Vec<Effect> = Vec::new();
        assert(effects_view(fx@) =~= seq![]);
        match key {
            Key::Char('q') | Key::Char('Q') => {
                self.running = false;
            },
            Key::Up | Key::Char('k') => {
                if self.menu_selection > 0 {
                    self.menu_selection = self.menu_selection - 1;
                }
            },
            Key::Down | Key::Char('j') => {
                if self.menu_selection < MENU_LEN - 1 {
                    self.menu_selection = self.menu_selection + 1;
                }
            },
            Key::Enter | Key::Char('l') => {
                if self.menu_selection == 0 {
                    if !puzzles_loaded {
                        self.message = "No puzzles loaded. Place lichess_puzzles.csv in data/".to_owned();
                    } else {
                        self.screen = Screen::ThemePicker;
                        self.theme_selection = 0;
                        self.message = "Pick a tactic theme".to_owned();
                    }
                } else if self.menu_selection == 1 {
                    self.screen = Screen::Analysis;
                    self.board = Position::start();
                    self.message = "hjkl/arrows to move cursor. Esc for menu.".to_owned();
                } else if self.menu_selection == 2 {
                    if online {
                        fx.push(Effect::Send(ClientMsg::ListRooms));
                        fx.push(Effect::RefreshServers);
                        self.screen = Screen::RoomBrowser;
                        self.message = "Browse rooms or create one.".to_owned();
                    } else {
                        fx.push(Effect::GoOnline);
                    }
                } else if self.menu_selection == 3 {
                    self.settings_selection = 0;
                    self.screen = Screen::Settings;
                    self.message = "Settings".to_owned();
                } else if self.menu_selection == 4 {
                    self.running = false;
                }
            },
            _ => {},
        }
        assert(effects_view(fx@) =~= menu_key(old(self)@, key, puzzles_loaded, online).1);
        fx
    }

    /// A key on the theme picker.
    pub fn theme_key(&mut self, key: Key) -> (fx: Vec<Effect>)
        ensures
            final(self)@ == theme_key(old(self)@, key).0,
            effects_view(fx@) == theme_key(old(self)@, key).1,
    {
        let mut fx: Vec<Effect> = Vec::new();
        assert(effects_view(fx@) =~= seq![]);
        match key {
            Key::Up | Key::Char('k') => {
                if self.theme_selection > 0 {
                    self.theme_selection = self.theme_selection - 1;
                }
            },
            Key::Down | Key::Char('j') => {
                if self.theme_selection < 26 {
                    self.theme_selection = self.theme_selection + 1;
                }
            },
            Key::Enter | Key::Char('l') => {
                fx.push(Effect::LoadTheme(self.theme_selection));
            },
            Key::Esc | Key::Char('q') | Key::Char('h') => {
                self.screen = Screen::Menu;
                self.message = "hjkl/arrows to navigate, Enter to select".to_owned();
            },
            _ => {},
        }
        assert(effects_view(fx@) =~= theme_key(old(self)@, key).1);
        fx
    }

    /// A key on the room browser, which lists `remote_count` other servers
    /// after the rooms.
    pub fn browser_key(&mut self, key: Key, remote_count: usize) -> (fx: Vec<Effect>)
        requires
            old(self).room_list.len() + remote_count <= usize::MAX,
        ensures
            final(self)@ == browser_key(old(self)@, key, remote_count).0,
            effects_view(fx@) == browser_key(old(self)@, key, remote_count).1,
    {
        let mut fx: Vec<Effect> = Vec::new();
        assert(effects_view(fx@) =~= seq![]);
        let total = self.room_list.len() + remote_count;
        match key {
            Key::Up | Key::Char('k') => {
                if self.room_selection > 0 {
                    self.room_selection = self.room_selection - 1;
                }
            },
            Key::Down | Key::Char('j') => {
                if total > 0 && self.room_selection < total - 1 {
                    self.room_selection = self.room_selection + 1;
                }
            },
            Key::Enter | Key::Char('l') => {
                let local = self.room_list.len();
                if self.room_selection < local {
                    assert(self@.room_list[self.room_selection as int] == self.room_list@[self.room_selection as int]@);
                    fx.push(Effect::Send(ClientMsg::JoinRoom { room_id: self.room_list[self.room_selection].id }));
                } else {
                    fx.push(Effect::ConnectRemote(self.room_selection - local));
                }
            },
            Key::Char('n') | Key::Char('N') => {
                let mut name = clone_string(&self.player_name);
                append_str(&mut name, "'s room");
                fx.push(Effect::Send(ClientMsg::CreateRoom { name }));
            },
            Key::Char('r') => {
                fx.push(Effect::Send(ClientMsg::ListRooms));
                fx.push(Effect::RefreshServers);
                self.message = "Refreshed.".to_owned();
            },
            Key::Esc | Key::Char('q') => {
                self.screen = Screen::Menu;
                self.message = "hjkl/arrows to navigate, Enter to select".to_owned();
            },
            _ => {},
        }
        assert(effects_view(fx@) =~= browser_key(old(self)@, key, remote_count).1);
        fx
    }

    /// A key while typing a chat line (see `chat_key`).
    fn chat_key(&mut self, key: Key) -> (fx: Vec<Effect>)
        ensures
            final(self)@ == chat_key(old(self)@, key).0,
            effects_view(fx@) == chat_key(old(self)@, key).1,
    {
        let mut fx: Vec<Effect> = Vec::new();
        assert(effects_view(fx@) =~= seq![]);
        match key {
            Key::Enter => {
                if !self.chat.input.as_str().is_empty() {
                    let body = clone_string(&self.chat.input);
                    self.chat.input = String::new();
                    fx.push(Effect::Send(ClientMsg::SendChat { body }));
                }
            },
            Key::Char(ch) => {
                crate::text::push_char(&mut self.chat.input, ch);
            },
            Key::Backspace => {
                drop_last_char(&mut self.chat.input);
            },
            Key::Esc => {
                self.chat.typing = false;
            },
            _ => {},
        }
        assert(effects_view(fx@) =~= chat_key(old(self)@, key).1);
        fx
    }

    /// A key in a room's lobby.
    pub fn lobby_key(&mut self, key: Key) -> (fx: Vec<Effect>)
        ensures
            final(self)@ == lobby_key(old(self)@, key).0,
            effects_view(fx@) == lobby_key(old(self)@, key).1,
    {
        if self.chat.typing {
            let fx = self.chat_key(key);
            if key == Key::Esc {
                self.message = "[t] new table, Enter=join table, Tab=chat, Esc=leave".to_owned();
            }
            return fx;
        }
        let mut fx: Vec<Effect> = Vec::new();
        assert(effects_view(fx@) =~= seq![]);
        match key {
            Key::Tab => {
                self.chat.typing = true;
                self.message = "Type message, Enter to send, Esc to stop".to_owned();
            },
            Key::Up | Key::Char('k') => {
                if self.table_selection > 0 {
                    self.table_selection = self.table_selection - 1;
                }
            },
            Key::Down | Key::Char('j') => {
                if self.tables.len() > 0 && self.table_selection < self.tables.len() - 1 {
                    self.table_selection = self.table_selection + 1;
                }
            },
            Key::Char('t') | Key::Char('T') => {
                fx.push(Effect::Send(ClientMsg::CreateTable { time_control: TimeControl::Unlimited }));
            },
            Key::Enter | Key::Char('l') => {
                if self.table_selection < self.tables.len() {
                    assert(self@.tables[self.table_selection as int] == self.tables@[self.table_selection as int]@);
                    fx.push(Effect::Send(ClientMsg::JoinTable { table_id: self.tables[self.table_selection].id }));
                }
            },
            Key::Esc | Key::Char('q') => {
                fx.push(Effect::Send(ClientMsg::LeaveRoom));
                self.current_room = None;
                self.room_players = Vec::new();
                self.tables = Vec::new();
                assert(players_view(self.room_players@) =~= seq![]);
                assert(tables_view(self.tables@) =~= seq![]);
                fx.push(Effect::Send(ClientMsg::ListRooms));
                self.screen = Screen::RoomBrowser;
                self.message = "Browse rooms or create one.".to_owned();
            },
            _ => {},
        }
        assert(effects_view(fx@) =~= lobby_key(old(self)@, key).1);
        fx
    }

    /// Enter at the live board (see `live_select`).
    pub fn live_select(&mut self) -> (fx: Vec<Effect>)
        requires
            old(self).cursor < 64,
        ensures
            final(self)@ == live_select(old(self)@).0,
            effects_view(fx@) == live_select(old(self)@).1,
    {
        let mut fx: Vec<Effect> = Vec::new();
        assert(effects_view(fx@) =~= seq![]);
        let sq = self.cursor;
        let from = match self.selected_sq {
            Some(f) => f,
            None => {
                if self.own_piece_at(sq) {
                    self.select_piece(sq);
                }
                return fx;
            },
        };
        if from == sq {
            self.selected_sq = None;
            self.highlights = Vec::new();
            assert(self.highlights@ =~= seq![]);
            return fx;
        }
        let legal = self.board.legal_moves();
        let mut k: usize = 0;
        while k < legal.len()
            invariant
                k <= legal.len(),
                move_index(legal@, from, sq, k as int) == move_index(legal@, from, sq, 0),
            ensures
                k <= legal.len(),
                move_index(legal@, from, sq, k as int) == move_index(legal@, from, sq, 0),
                k < legal.len() ==> move_index(legal@, from, sq, k as int) == k,
            decreases legal.len() - k,
        {
            let m = legal[k];
            if m.from == from && m.to == sq && (m.promotion.is_none() || m.promotion == Some(QUEEN)) {
                break;
            }
            k += 1;
        }
        if k < legal.len() {
            fx.push(Effect::Send(ClientMsg::MakeMove { uci: legal[k].to_uci() }));
            self.selected_sq = None;
            self.highlights = Vec::new();
            assert(self.highlights@ =~= seq![]);
            self.message = "Move sent...".to_owned();
            assert(effects_view(fx@) =~= live_select(old(self)@).1);
        } else if self.own_piece_at(sq) {
            self.select_piece(sq);
        }
        fx
    }

    /// A key at a live table.
    pub fn live_key(&mut self, key: Key) -> (fx: Vec<Effect>)
        requires
            old(self).cursor < 64,
        ensures
            final(self)@ == live_key(old(self)@, key).0,
            effects_view(fx@) == live_key(old(self)@, key).1,
    {
        if self.chat.typing {
            return self.chat_key(key);
        }
        let mut fx: Vec<Effect> = Vec::new();
        assert(effects_view(fx@) =~= seq![]);
        if !self.game_active {
            match key {
                Key::Esc | Key::Char('q') => {
                    fx.push(Effect::Send(ClientMsg::LeaveTable));
                    self.current_table = None;
                    self.screen = Screen::RoomLobby;
                    self.message = "[t] new table, Enter=join table, Tab=chat, Esc=leave".to_owned();
                },
                _ => {},
            }
            assert(effects_view(fx@) =~= live_key(old(self)@, key).1);
            return fx;
        }
        match key {
            Key::Left | Key::Right | Key::Up | Key::Down | Key::Char('h') | Key::Char('j')
            | Key::Char('k') | Key::Char('l') => {
                if self.is_my_turn() {
                    self.move_cursor(key);
                }
            },
            Key::Enter => {
                if self.is_my_turn() {
                    fx = self.live_select();
                }
            },
            Key::Tab => {
                self.chat.typing = true;
                self.message = "Type message, Enter to send, Esc to stop".to_owned();
            },
            Key::Char('r') | Key::Char('R') => {
                fx.push(Effect::Send(ClientMsg::Resign));
            },
            Key::Esc => {
                fx.push(Effect::Send(ClientMsg::LeaveTable));
                self.current_table = None;
                self.game_active = false;
                self.screen = Screen::RoomLobby;
                self.message = "[t] new table, Enter=join table, Tab=chat, Esc=leave".to_owned();
            },
            _ => {},
        }
        assert(effects_view(fx@) =~= live_key(old(self)@, key).1);
        fx
    }
}

impl Client {
    /// A client on the menu with the starting position, named `player_name`.
    pub fn new(player_name: String) -> (c: Self)
        ensures
            c@ == (ClientV {
                screen: Screen::Menu,
                board: start_position(),
                cursor: 28,
                running: true,
                message: menu_help(),
                menu_selection: 0,
                theme_selection: 0,
                puzzle_queue: seq![],
                puzzle_pos: 0,
                puzzle_move_index: 0,
                selected_sq: None,
                highlights: seq![],
                score_correct: 0,
                score_total: 0,
                my_id: None,
                player_name: player_name@,
                room_list: seq![],
                room_selection: 0,
                current_room: None,
                room_players: seq![],
                player_selection: 0,
                chat: empty_chat(),
                tables: seq![],
                table_selection: 0,
                current_table: None,
                live_white: None,
                live_black: None,
                game_active: false,
                settings_selection: 0,
                name_input: seq![],
                sound_event_selection: 0,
                sound_param_selection: 0,
                canvas: fresh_canvas(),
            }),
    {
        let c = Client {
            screen: Screen::Menu,
            board: Position::start(),
            cursor: 28,
            running: true,
            message: "hjkl/arrows to navigate, Enter to select".to_owned(),
            menu_selection: 0,
            theme_selection: 0,
            puzzle_queue: Vec::new(),
            puzzle_pos: 0,
            puzzle_move_index: 0,
            selected_sq: None,
            highlights: Vec::new(),
            score_correct: 0,
            score_total: 0,
            my_id: None,
            player_name,
            room_list: Vec::new(),
            room_selection: 0,
            current_room: None,
            room_players: Vec::new(),
            player_selection: 0,
            chat: ChatState::new(),
            tables: Vec::new(),
            table_selection: 0,
            current_table: None,
            live_white: None,
            live_black: None,
            game_active: false,
            settings_selection: 0,
            name_input: String::new(),
            sound_event_selection: 0,
            sound_param_selection: 0,
            canvas: CanvasState::new(),
        };
        assert(puzzles_view(c.puzzle_queue@) =~= seq![]);
        assert(c.highlights@ =~= seq![]);
        assert(rooms_view(c.room_list@) =~= seq![]);
        assert(players_view(c.room_players@) =~= seq![]);
        assert(tables_view(c.tables@) =~= seq![]);
        c
    }
}

/// Whether a key pressed with Control held quits from any screen: Ctrl+C or
/// Ctrl+Q.
pub open spec fn is_quit(key: Key, ctrl: bool) -> bool {
    ctrl && (key == Key::Char('c') || key == Key::Char('q'))
}

impl Client {
    /// Ctrl+C or Ctrl+Q stops the client on any screen; says whether it did.
    /// Other keys go to the screen's own handler.
    pub fn quit_key(&mut self, key: Key, ctrl: bool) -> (quit: bool)
        ensures
            quit == is_quit(key, ctrl),
            quit ==> final(self)@ == (ClientV { running: false, ..old(self)@ }),
            !quit ==> final(self)@ == old(self)@,
    {
        if ctrl && (key == Key::Char('c') || key == Key::Char('q')) {
            self.running = false;
            true
        } else {
            false
        }
    }
}

// ── Laws ───────────────────────────────────────────────────────────

/// The board cursor never leaves the board, whatever keys are pressed.
pub proof fn law_cursor_stays_on_board(cursor: u8, key: Key)
    requires
        cursor < 64,
    ensures
        cursor_after(cursor, key) < 64,
{
}

/// A hint names the next move of the puzzle's line and lights up its squares.
pub proof fn law_hint_shows_next_move(c: ClientV)
    requires
        c.puzzle_pos < c.puzzle_queue.len(),
        c.puzzle_move_index < line_len(c),
    ensures
        ({
            let hint = c.puzzle_queue[c.puzzle_pos as int].moves[c.puzzle_move_index as int];
            let r = puzzle_key(c, Key::Char('H'));
            &&& r.0.message == "Hint: "@ + hint
            &&& spec_from_uci(encode_utf8(hint)) matches Some(mv) ==> r.0.highlights == seq![
                mv.from,
                mv.to,
            ]
        }),
{
}

/// The index `move_index` finds, when a move from `from` to `to` that is not a
/// promotion other than to a queen stands at or after `i`.
proof fn lemma_move_index(ms: Seq<Move>, from: u8, to: u8, i: int, j: int)
    requires
        0 <= i <= j < ms.len(),
        ms[j].from == from,
        ms[j].to == to,
        ms[j].promotion is None || ms[j].promotion == Some(QUEEN),
    ensures
        i <= move_index(ms, from, to, i) <= j,
        ({
            let k = move_index(ms, from, to, i);
            ms[k].from == from && ms[k].to == to && (ms[k].promotion is None || ms[k].promotion
                == Some(QUEEN))
        }),
    decreases j - i,
{
    if !(ms[i].from == from && ms[i].to == to && (ms[i].promotion is None || ms[i].promotion
        == Some(QUEEN))) {
        lemma_move_index(ms, from, to, i + 1, j);
    }
}

/// A correct move that does not end the puzzle's line is answered: when the
/// line's next entry reads as a move, the board becomes the position after
/// the player's move and then that reply, the line advances by two moves, and
/// the player is told to keep going.
pub proof fn law_correct_move_is_answered(c: ClientV, m: Move, reply: Move)
    requires
        c.selected_sq == Some(m.from),
        c.cursor == m.to,
        m.from != m.to,
        spec_legal_moves(c.board).contains(m),
        m.promotion is None || m.promotion == Some(QUEEN),
        forall|m2: Move|
            spec_legal_moves(c.board).contains(m2) && m2.from == m.from && m2.to == m.to && (
            m2.promotion is None || m2.promotion == Some(QUEEN)) ==> m2 == m,
        c.puzzle_move_index + 1 < line_len(c),
        line_len(c) <= usize::MAX,
        spec_to_uci(m) == c.puzzle_queue[c.puzzle_pos as int].moves[c.puzzle_move_index as int],
        spec_from_uci(encode_utf8(c.puzzle_queue[c.puzzle_pos as int].moves[c.puzzle_move_index
            + 1])) == Some(reply),
    ensures
        puzzle_select(c).0.board == spec_make_move(spec_make_move(c.board, m), reply),
        puzzle_select(c).0.puzzle_move_index == c.puzzle_move_index + 2,
        puzzle_select(c).0.selected_sq is None,
        puzzle_select(c).0.message == "Correct! Keep going..."@,
{
    let legal = spec_legal_moves(c.board);
    let j = choose|j: int| 0 <= j < legal.len() && legal[j] == m;
    lemma_move_index(legal, m.from, m.to, 0, j);
    let k = move_index(legal, m.from, m.to, 0);
    assert(legal.contains(legal[k]));
    assert(legal[k] == m);
}

} // verus!
