//! Messages between game clients and the game server.
use vstd::prelude::*;

verus! {

// ── Client → Server ────────────────────────────────────────────────

#[derive(Debug)]
pub enum ClientMsg {
    SetName { name: String },
    ListRooms,
    CreateRoom { name: String },
    JoinRoom { room_id: u32 },
    LeaveRoom,
    // Game tables within a room
    CreateTable { time_control: TimeControl },
    JoinTable { table_id: u32 },
    LeaveTable,
    // Moves (applies to whichever table you're at)
    MakeMove { uci: String },
    Resign,
    Rematch,
    // Main board (moderator only)
    SetMainBoardMode { mode: BoardMode },
    MainBoardMove { uci: String },
    // Chat (goes to the whole room)
    SendChat { body: String },
}

// ── Server → Client ────────────────────────────────────────────────

#[derive(Debug)]
pub enum ServerMsg {
    Welcome { your_id: u32 },
    Error { msg: String },
    // Room browsing
    RoomList { rooms: Vec<RoomInfo> },
    // Room state
    RoomJoined { room: RoomInfo, players: Vec<PlayerInfo>, tables: Vec<TableInfo> },
    PlayerJoined { player: PlayerInfo },
    PlayerLeft { player_id: u32 },
    // Game tables
    TableCreated { table: TableInfo },
    TableUpdated { table: TableInfo },
    TableRemoved { table_id: u32 },
    TableJoined { table: TableInfo, fen: String },
    // Game events (within a table)
    GameStarted { table_id: u32, white: u32, black: u32, fen: String, time_control: TimeControl },
    MoveMade { table_id: u32, uci: String, fen: String, white_time_ms: u64, black_time_ms: u64 },
    GameOver { table_id: u32, reason: String, winner: Option<u32> },
    // Main board
    MainBoardUpdate { mode: BoardMode, fen: String },
    // Chat
    ChatMessage { sender: String, body: String, kind: ChatKind },
}

#[derive(Debug)]
pub struct RoomInfo {
    pub id: u32,
    pub name: String,
    pub player_count: u32,
    pub table_count: u32,
    pub active_games: u32,
}

#[derive(Debug)]
pub struct PlayerInfo {
    pub id: u32,
    pub name: String,
    pub status: PlayerStatus,
    pub table_id: Option<u32>,
}

#[derive(Clone, Copy, Debug, PartialEq, Eq, Structural)]
pub enum PlayerStatus {
    Idle,
    Playing,
    Spectating,
}

#[derive(Debug)]
pub struct TableInfo {
    pub id: u32,
    pub white: Option<PlayerRef>,
    pub black: Option<PlayerRef>,
    pub spectator_count: u32,
    pub has_game: bool,
    pub time_control: TimeControl,
}

#[derive(Clone, Copy, Debug, PartialEq, Eq, Structural)]
pub enum TimeControl {
    /// no clock
    Unlimited,
    /// 5, 10, 20 or 30 minutes
    Minutes(u32),
}

#[derive(Debug)]
pub struct PlayerRef {
    pub id: u32,
    pub name: String,
}

#[derive(Clone, Copy, Debug, PartialEq, Eq, Structural)]
pub enum BoardMode {
    Tutorial,
    Game,
}

#[derive(Clone, Copy, Debug, PartialEq, Eq, Structural)]
pub enum ChatKind {
    Player,
    System,
    Spectator,
}

pub const DEFAULT_PORT: u16 = 7878;

pub const CENTRAL_SERVER_PORT: u16 = 7880;

// ── Views: the messages with their text as character sequences ─────

pub struct PlayerRefV {
    pub id: u32,
    pub name: Seq<char>,
}

pub struct RoomInfoV {
    pub id: u32,
    pub name: Seq<char>,
    pub player_count: u32,
    pub table_count: u32,
    pub active_games: u32,
}

pub struct PlayerInfoV {
    pub id: u32,
    pub name: Seq<char>,
    pub status: PlayerStatus,
    pub table_id: Option<u32>,
}

pub struct TableInfoV {
    pub id: u32,
    pub white: Option<PlayerRefV>,
    pub black: Option<PlayerRefV>,
    pub spectator_count: u32,
    pub has_game: bool,
    pub time_control: TimeControl,
}

pub enum ServerMsgV {
    Welcome { your_id: u32 },
    Error { msg: Seq<char> },
    RoomList { rooms: Seq<RoomInfoV> },
    RoomJoined { room: RoomInfoV, players: Seq<PlayerInfoV>, tables: Seq<TableInfoV> },
    PlayerJoined { player: PlayerInfoV },
    PlayerLeft { player_id: u32 },
    TableCreated { table: TableInfoV },
    TableUpdated { table: TableInfoV },
    TableRemoved { table_id: u32 },
    TableJoined { table: TableInfoV, fen: Seq<char> },
    GameStarted { table_id: u32, white: u32, black: u32, fen: Seq<char>, time_control: TimeControl },
    MoveMade {
        table_id: u32,
        uci: Seq<char>,
        fen: Seq<char>,
        white_time_ms: u64,
        black_time_ms: u64,
    },
    GameOver { table_id: u32, reason: Seq<char>, winner: Option<u32> },
    MainBoardUpdate { mode: BoardMode, fen: Seq<char> },
    ChatMessage { sender: Seq<char>, body: Seq<char>, kind: ChatKind },
}

impl View for PlayerRef {
    type V = PlayerRefV;

    open spec fn view(&self) -> PlayerRefV {
        PlayerRefV { id: self.id, name: self.name@ }
    }
}

impl View for RoomInfo {
    type V = RoomInfoV;

    open spec fn view(&self) -> RoomInfoV {
        RoomInfoV {
            id: self.id,
            name: self.name@,
            player_count: self.player_count,
            table_count: self.table_count,
            active_games: self.active_games,
        }
    }
}

impl View for PlayerInfo {
    type V = PlayerInfoV;

    open spec fn view(&self) -> PlayerInfoV {
        PlayerInfoV { id: self.id, name: self.name@, status: self.status, table_id: self.table_id }
    }
}

pub open spec fn ref_view(r: Option<PlayerRef>) -> Option<PlayerRefV> {
    match r {
        Some(p) => Some(p@),
        None => None,
    }
}

impl View for TableInfo {
    type V = TableInfoV;

    open spec fn view(&self) -> TableInfoV {
        TableInfoV {
            id: self.id,
            white: ref_view(self.white),
            black: ref_view(self.black),
            spectator_count: self.spectator_count,
            has_game: self.has_game,
            time_control: self.time_control,
        }
    }
}

pub open spec fn rooms_view(v: Seq<RoomInfo>) -> Seq<RoomInfoV> {
    v.map_values(|r: RoomInfo| r@)
}

pub open spec fn players_view(v: Seq<PlayerInfo>) -> Seq<PlayerInfoV> {
    v.map_values(|p: PlayerInfo| p@)
}

pub open spec fn tables_view(v: Seq<TableInfo>) -> Seq<TableInfoV> {
    v.map_values(|t: TableInfo| t@)
}

impl View for ServerMsg {
    type V = ServerMsgV;

    open spec fn view(&self) -> ServerMsgV {
        match self {
            ServerMsg::Welcome { your_id } => ServerMsgV::Welcome { your_id: *your_id },
            ServerMsg::Error { msg } => ServerMsgV::Error { msg: msg@ },
            ServerMsg::RoomList { rooms } => ServerMsgV::RoomList { rooms: rooms_view(rooms@) },
            ServerMsg::RoomJoined { room, players, tables } => ServerMsgV::RoomJoined {
                room: room@,
                players: players_view(players@),
                tables: tables_view(tables@),
            },
            ServerMsg::PlayerJoined { player } => ServerMsgV::PlayerJoined { player: player@ },
            ServerMsg::PlayerLeft { player_id } => ServerMsgV::PlayerLeft { player_id: *player_id },
            ServerMsg::TableCreated { table } => ServerMsgV::TableCreated { table: table@ },
            ServerMsg::TableUpdated { table } => ServerMsgV::TableUpdated { table: table@ },
            ServerMsg::TableRemoved { table_id } => ServerMsgV::TableRemoved { table_id: *table_id },
            ServerMsg::TableJoined { table, fen } => ServerMsgV::TableJoined {
                table: table@,
                fen: fen@,
            },
            ServerMsg::GameStarted { table_id, white, black, fen, time_control } =>
                ServerMsgV::GameStarted {
                table_id: *table_id,
                white: *white,
                black: *black,
                fen: fen@,
                time_control: *time_control,
            },
            ServerMsg::MoveMade { table_id, uci, fen, white_time_ms, black_time_ms } =>
                ServerMsgV::MoveMade {
                table_id: *table_id,
                uci: uci@,
                fen: fen@,
                white_time_ms: *white_time_ms,
                black_time_ms: *black_time_ms,
            },
            ServerMsg::GameOver { table_id, reason, winner } => ServerMsgV::GameOver {
                table_id: *table_id,
                reason: reason@,
                winner: *winner,
            },
            ServerMsg::MainBoardUpdate { mode, fen } => ServerMsgV::MainBoardUpdate {
                mode: *mode,
                fen: fen@,
            },
            ServerMsg::ChatMessage { sender, body, kind } => ServerMsgV::ChatMessage {
                sender: sender@,
                body: body@,
                kind: *kind,
            },
        }
    }
}

pub enum ClientMsgV {
    SetName { name: Seq<char> },
    ListRooms,
    CreateRoom { name: Seq<char> },
    JoinRoom { room_id: u32 },
    LeaveRoom,
    CreateTable { time_control: TimeControl },
    JoinTable { table_id: u32 },
    LeaveTable,
    MakeMove { uci: Seq<char> },
    Resign,
    Rematch,
    SetMainBoardMode { mode: BoardMode },
    MainBoardMove { uci: Seq<char> },
    SendChat { body: Seq<char> },
}

impl View for ClientMsg {
    type V = ClientMsgV;

    open spec fn view(&self) -> ClientMsgV {
        match self {
            ClientMsg::SetName { name } => ClientMsgV::SetName { name: name@ },
            ClientMsg::ListRooms => ClientMsgV::ListRooms,
            ClientMsg::CreateRoom { name } => ClientMsgV::CreateRoom { name: name@ },
            ClientMsg::JoinRoom { room_id } => ClientMsgV::JoinRoom { room_id: *room_id },
            ClientMsg::LeaveRoom => ClientMsgV::LeaveRoom,
            ClientMsg::CreateTable { time_control } => ClientMsgV::CreateTable {
                time_control: *time_control,
            },
            ClientMsg::JoinTable { table_id } => ClientMsgV::JoinTable { table_id: *table_id },
            ClientMsg::LeaveTable => ClientMsgV::LeaveTable,
            ClientMsg::MakeMove { uci } => ClientMsgV::MakeMove { uci: uci@ },
            ClientMsg::Resign => ClientMsgV::Resign,
            ClientMsg::Rematch => ClientMsgV::Rematch,
            ClientMsg::SetMainBoardMode { mode } => ClientMsgV::SetMainBoardMode { mode: *mode },
            ClientMsg::MainBoardMove { uci } => ClientMsgV::MainBoardMove { uci: uci@ },
            ClientMsg::SendChat { body } => ClientMsgV::SendChat { body: body@ },
        }
    }
}

} // verus!
