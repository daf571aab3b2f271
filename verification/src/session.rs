//! How the game server answers each client: every operation maps the server's
//! state to its next state and the messages to deliver, in order.
use vstd::prelude::*;

use crate::board::{
    move_in_range,
    spec_from_uci, spec_in_check, spec_legal_moves, spec_make_move, start_position, Color, Move,
    Position,
};
use crate::protocol::{
    players_view, tables_view, BoardMode, ChatKind, ClientMsg, ClientMsgV, PlayerInfo, PlayerInfoV, RoomInfo, RoomInfoV, TableInfo, ServerMsg, ServerMsgV, TimeControl,
};
use crate::server::{
    clone_ids, clone_string, position_to_fen, remove_id,
    broadcast, deliveries_view, lemma_player_from, lemma_room_from, lemma_same_ids, lemma_table_from, same_ids, info_of, infos_of, name_of, player_idx, room_idx, room_info_of, room_infos_of,
    send_to, spec_position_to_fen, system_chat, table_idx, table_info_of, table_infos_of,
    tables_outside, with_player, with_room, with_table, without_id, without_room, without_table, ConnectedPlayer,
    Delivery, DeliveryV, GameTable, PlayerV, Room, RoomV, ServerState, ServerV, TableV,
};
use vstd::utf8::encode_utf8;
use crate::text::{append_str, decimal_of, push_decimal};

verus! {

// ── Where a player is ──────────────────────────────────────────────

/// The room player `pid` is in, if the player is connected and in one.
pub open spec fn room_of(s: ServerV, pid: u32) -> Option<u32> {
    let i = player_idx(s, pid);
    if i >= 0 {
        s.players[i].room_id
    } else {
        None
    }
}

/// The room and table of player `pid`, when the player's record names both.
pub open spec fn loc_of(s: ServerV, pid: u32) -> Option<(u32, u32)> {
    let i = player_idx(s, pid);
    if i >= 0 {
        match (s.players[i].room_id, s.players[i].table_id) {
            (Some(r), Some(t)) => Some((r, t)),
            _ => None,
        }
    } else {
        None
    }
}

/// A seat after player `pid` leaves it.
pub open spec fn seat_after(seat: Option<u32>, pid: u32) -> Option<u32> {
    if seat == Some(pid) {
        None
    } else {
        seat
    }
}

/// The FEN text of the starting position.
pub open spec fn start_fen() -> Seq<char> {
    "rnbqkbnr/pppppppp/8/8/8/8/PPPPPPPP/RNBQKBNR w KQkq - 0 1"@
}

/// Whether the side to move in `p` is checkmated.
pub open spec fn mated(p: Position) -> bool {
    spec_in_check(p, p.side_to_move) && spec_legal_moves(p).len() == 0
}

/// Whether the side to move in `p` is stalemated.
pub open spec fn stalemated(p: Position) -> bool {
    !spec_in_check(p, p.side_to_move) && spec_legal_moves(p).len() == 0
}

// ── Operations shared by several messages ──────────────────────────

/// Ends the game at table `tid` of room `rid`: the table goes back to the
/// starting position with no game, and the room hears of it.
pub open spec fn end_game(s: ServerV, rid: u32, tid: u32) -> (ServerV, Seq<DeliveryV>) {
    let ti = table_idx(s, rid, tid);
    if room_idx(s, rid) >= 0 && ti >= 0 {
        let t = TableV { game_active: false, position: start_position(), ..s.tables[ti] };
        let s1 = with_table(s, ti, t);
        (s1, broadcast(s1, rid, ServerMsgV::TableUpdated { table: table_info_of(s1, t) }, None))
    } else {
        (s, seq![])
    }
}

/// Player `pid` leaves the table it sits at or watches. A game in progress
/// ends when a seat empties, won by whoever still sits; an empty table goes.
pub open spec fn leave_table(s: ServerV, pid: u32) -> (ServerV, Seq<DeliveryV>) {
    match loc_of(s, pid) {
        None => (s, seq![]),
        Some((rid, tid)) => {
            let pi = player_idx(s, pid);
            let s1 = with_player(s, pi, PlayerV { table_id: None, ..s.players[pi] });
            let name = name_of(s1, pid);
            let ti = table_idx(s1, rid, tid);
            if room_idx(s1, rid) >= 0 && ti >= 0 {
                let t = s1.tables[ti];
                let white = seat_after(t.white, pid);
                let black = seat_after(t.black, pid);
                let ended = t.game_active && (white is None || black is None);
                let t2 = TableV {
                    white,
                    black,
                    spectators: without_id(t.spectators, pid),
                    game_active: if ended {
                        false
                    } else {
                        t.game_active
                    },
                    ..t
                };
                let s2 = with_table(s1, ti, t2);
                let winner = if ended {
                    if white is Some {
                        white
                    } else {
                        black
                    }
                } else {
                    None
                };
                let over = if ended {
                    broadcast(
                        s2,
                        rid,
                        ServerMsgV::GameOver {
                            table_id: tid,
                            reason: name + " left the table"@,
                            winner,
                        },
                        None,
                    )
                } else {
                    seq![]
                };
                if white is None && black is None && t2.spectators.len() == 0 {
                    let s3 = without_table(s2, ti);
                    (s3, over + broadcast(s3, rid, ServerMsgV::TableRemoved { table_id: tid }, None))
                } else {
                    (
                        s2,
                        over + broadcast(
                            s2,
                            rid,
                            ServerMsgV::TableUpdated { table: table_info_of(s2, t2) },
                            None,
                        ),
                    )
                }
            } else {
                (s1, seq![])
            }
        },
    }
}

/// Player `pid` leaves its table, then its room; a room left empty goes,
/// with its tables.
pub open spec fn leave_room(s: ServerV, pid: u32) -> (ServerV, Seq<DeliveryV>) {
    let lt = leave_table(s, pid);
    let s1 = lt.0;
    match room_of(s1, pid) {
        None => lt,
        Some(rid) => {
            let name = name_of(s1, pid);
            let ri = room_idx(s1, rid);
            let s2 = if ri >= 0 {
                with_room(
                    s1,
                    ri,
                    RoomV { player_ids: without_id(s1.rooms[ri].player_ids, pid), ..s1.rooms[ri] },
                )
            } else {
                s1
            };
            let pi = player_idx(s2, pid);
            let s3 = with_player(s2, pi, PlayerV { room_id: None, ..s2.players[pi] });
            let said = lt.1 + broadcast(s3, rid, ServerMsgV::PlayerLeft { player_id: pid }, None)
                + system_chat(s3, rid, name + " left"@);
            if ri >= 0 && s3.rooms[ri].player_ids.len() == 0 {
                (without_room(s3, ri), said)
            } else {
                (s3, said)
            }
        },
    }
}

impl ServerState {
    pub(crate) fn end_game(&mut self, rid: u32, tid: u32, out: &mut Vec<Delivery>)
        ensures
            final(self)@ == end_game(old(self)@, rid, tid).0,
            deliveries_view(final(out)@) == deliveries_view(old(out)@) + end_game(
                old(self)@,
                rid,
                tid,
            ).1,
    {
        if self.room_index(rid).is_none() {
            assert(deliveries_view(out@) =~= deliveries_view(out@) + seq![]);
            return ;
        }
        let ti = match self.table_index(rid, tid) {
            Some(i) => i,
            None => {
                assert(deliveries_view(out@) =~= deliveries_view(out@) + seq![]);
                return ;
            },
        };
        let t0 = &self.tables[ti];
        let t = GameTable {
            id: t0.id,
            room_id: t0.room_id,
            white: t0.white,
            black: t0.black,
            spectators: clone_ids(&t0.spectators),
            position: Position::start(),
            game_active: false,
            time_control: t0.time_control,
        };
        self.put_table(ti, t);
        let ghost tv = TableV {
            game_active: false,
            position: start_position(),
            ..old(self)@.tables[ti as int]
        };
        assert(self@.tables[ti as int] == tv);
        assert(self@ == end_game(old(self)@, rid, tid).0);
        let info = self.table_info(&self.tables[ti]);
        assert(info@ == table_info_of(self@, tv));
        self.broadcast_room(out, rid, ServerMsg::TableUpdated { table: info }, None);
    }

    pub(crate) fn leave_table(&mut self, pid: u32, out: &mut Vec<Delivery>)
        ensures
            final(self)@ == leave_table(old(self)@, pid).0,
            deliveries_view(final(out)@) == deliveries_view(old(out)@) + leave_table(
                old(self)@,
                pid,
            ).1,
            same_ids(old(self)@.players, final(self)@.players),
    {
        let ghost s0 = self@;
        let ghost out0 = deliveries_view(out@);
        assert(out0 =~= out0 + seq![]);
        let pi = match self.player_index(pid) {
            Some(i) => i,
            None => {
                return ;
            },
        };
        let (rid, tid) = match (self.players[pi].room_id, self.players[pi].table_id) {
            (Some(r), Some(t)) => (r, t),
            _ => {
                return ;
            },
        };
        self.set_player_table(pi, None);
        let name = self.player_name(pid);
        if self.room_index(rid).is_none() {
            return ;
        }
        let ti = match self.table_index(rid, tid) {
            Some(i) => i,
            None => {
                return ;
            },
        };
        let t0 = &self.tables[ti];
        let white = if t0.white == Some(pid) {
            None
        } else {
            t0.white
        };
        let black = if t0.black == Some(pid) {
            None
        } else {
            t0.black
        };
        let ended = t0.game_active && (white.is_none() || black.is_none());
        let winner = if ended {
            if white.is_some() {
                white
            } else {
                black
            }
        } else {
            None
        };
        let t = GameTable {
            id: t0.id,
            room_id: t0.room_id,
            white,
            black,
            spectators: remove_id(&t0.spectators, pid),
            position: t0.position,
            game_active: if ended {
                false
            } else {
                t0.game_active
            },
            time_control: t0.time_control,
        };
        let empty = white.is_none() && black.is_none() && t.spectators.len() == 0;
        let ghost s1 = self@;
        let ghost t2 = TableV {
            white,
            black,
            spectators: without_id(s1.tables[ti as int].spectators, pid),
            game_active: if ended {
                false
            } else {
                s1.tables[ti as int].game_active
            },
            ..s1.tables[ti as int]
        };
        assert(t@ == t2);
        self.put_table(ti, t);
        assert(self@ == with_table(s1, ti as int, t2));
        assert(name@ == name_of(s1, pid));
        let ghost out1 = deliveries_view(out@);
        if ended {
            let mut reason = name;
            append_str(&mut reason, " left the table");
            self.broadcast_room(out, rid, ServerMsg::GameOver { table_id: tid, reason, winner }, None);
        }
        let ghost out2 = deliveries_view(out@);
        if empty {
            let _ = self.take_table(ti);
            self.broadcast_room(out, rid, ServerMsg::TableRemoved { table_id: tid }, None);
        } else {
            assert(self@.tables[ti as int] == t2);
            let info = self.table_info(&self.tables[ti]);
            assert(info@ == table_info_of(self@, t2));
            self.broadcast_room(out, rid, ServerMsg::TableUpdated { table: info }, None);
        }
        assert(deliveries_view(out@) =~= out0 + leave_table(s0, pid).1);
    }
}

/// Player `pid` goes: it leaves its room, and its record is dropped.
pub open spec fn disconnect(s: ServerV, pid: u32) -> (ServerV, Seq<DeliveryV>) {
    let lr = leave_room(s, pid);
    let pi = player_idx(lr.0, pid);
    if pi >= 0 {
        (ServerV { players: lr.0.players.remove(pi), ..lr.0 }, lr.1)
    } else {
        lr
    }
}

/// The name a player gets on connecting.
pub open spec fn default_name(id: u32) -> Seq<char> {
    "Player"@ + decimal_of(id as nat)
}

/// A client connects: it gets the next id and a default name, and is welcomed.
pub open spec fn connect(s: ServerV) -> (ServerV, Seq<DeliveryV>) {
    let id = s.next_id;
    let p = PlayerV { id, name: default_name(id), room_id: None, table_id: None };
    (
        ServerV { next_id: (id + 1) as u32, players: s.players.push(p), ..s },
        seq![DeliveryV { to: seq![id], msg: ServerMsgV::Welcome { your_id: id } }],
    )
}

impl ServerState {
    pub(crate) fn leave_room(&mut self, pid: u32, out: &mut Vec<Delivery>)
        ensures
            final(self)@ == leave_room(old(self)@, pid).0,
            deliveries_view(final(out)@) == deliveries_view(old(out)@) + leave_room(
                old(self)@,
                pid,
            ).1,
            same_ids(old(self)@.players, final(self)@.players),
    {
        let ghost s0 = self@;
        let ghost out0 = deliveries_view(out@);
        self.leave_table(pid, out);
        let ghost s1 = self@;
        let ghost out1 = deliveries_view(out@);
        let pi = match self.player_index(pid) {
            Some(i) => i,
            None => {
                return ;
            },
        };
        let rid = match self.players[pi].room_id {
            Some(r) => r,
            None => {
                return ;
            },
        };
        let name = self.player_name(pid);
        let ri = self.room_index(rid);
        match ri {
            Some(i) => {
                let r0 = &self.rooms[i];
                let r = Room {
                    id: r0.id,
                    name: clone_string(&r0.name),
                    moderator: r0.moderator,
                    player_ids: remove_id(&r0.player_ids, pid),
                    next_table_id: r0.next_table_id,
                    main_board_mode: r0.main_board_mode,
                    main_board_pos: r0.main_board_pos,
                };
                let ghost rv = RoomV {
                    player_ids: without_id(s1.rooms[i as int].player_ids, pid),
                    ..s1.rooms[i as int]
                };
                assert(r@ == rv);
                self.put_room(i, r);
                assert(self@ == with_room(s1, i as int, rv));
            },
            None => {},
        }
        let ghost s2 = self@;
        assert(player_idx(s2, pid) == pi);
        self.set_player_room(pi, None);
        let ghost s3 = self@;
        self.broadcast_room(out, rid, ServerMsg::PlayerLeft { player_id: pid }, None);
        let mut body = name;
        append_str(&mut body, " left");
        self.broadcast_room(
            out,
            rid,
            ServerMsg::ChatMessage { sender: String::new(), body, kind: ChatKind::System },
            None,
        );
        let ghost said = broadcast(s3, rid, ServerMsgV::PlayerLeft { player_id: pid }, None)
            + system_chat(s3, rid, name_of(s1, pid) + " left"@);
        assert(deliveries_view(out@) =~= out1 + said);
        assert(out1 + said =~= out0 + (leave_table(s0, pid).1 + said));
        match ri {
            Some(i) => {
                if self.rooms[i].player_ids.len() == 0 {
                    self.drop_room(i);
                }
            },
            None => {},
        }
    }

    /// Drops player `pid`: it leaves its room first.
    pub fn disconnect(&mut self, pid: u32, out: &mut Vec<Delivery>)
        ensures
            final(self)@ == disconnect(old(self)@, pid).0,
            deliveries_view(final(out)@) == deliveries_view(old(out)@) + disconnect(
                old(self)@,
                pid,
            ).1,
    {
        self.leave_room(pid, out);
        match self.player_index(pid) {
            Some(i) => {
                let _ = self.players.remove(i);
                assert(self@.players =~= disconnect(old(self)@, pid).0.players);
            },
            None => {},
        }
    }

    /// Accepts a new client: returns its id, and welcomes it.
    pub fn connect(&mut self, out: &mut Vec<Delivery>) -> (id: u32)
        requires
            old(self).next_id < u32::MAX,
        ensures
            id == old(self).next_id,
            final(self)@ == connect(old(self)@).0,
            deliveries_view(final(out)@) == deliveries_view(old(out)@) + connect(old(self)@).1,
    {
        let id = self.next_id;
        self.next_id = id + 1;
        let mut name = String::new();
        append_str(&mut name, "Player");
        push_decimal(&mut name, id as u64);
        self.players.push(ConnectedPlayer { id, name, room_id: None, table_id: None });
        let mut to: Vec<u32> = Vec::new();
        to.push(id);
        let ghost before = out@;
        out.push(Delivery { to, msg: ServerMsg::Welcome { your_id: id } });
        assert(self@.players =~= connect(old(self)@).0.players);
        assert(deliveries_view(out@) =~= deliveries_view(before) + connect(old(self)@).1);
        id
    }
}


/// Whether a table can still be numbered in the room of player `pid`: its
/// counter has not reached the largest `u32`.
pub open spec fn table_ids_left(s: ServerV, pid: u32) -> bool {
    match room_of(s, pid) {
        Some(rid) => room_idx(s, rid) >= 0 ==> s.rooms[room_idx(s, rid)].next_table_id < u32::MAX,
        None => true,
    }
}

// ── The answer to each client message ─────────────────────────────

pub open spec fn set_name(s: ServerV, pid: u32, name: Seq<char>) -> (ServerV, Seq<DeliveryV>) {
    let pi = player_idx(s, pid);
    if pi >= 0 {
        (with_player(s, pi, PlayerV { name, ..s.players[pi] }), seq![])
    } else {
        (s, seq![])
    }
}

pub open spec fn list_rooms(s: ServerV, pid: u32) -> (ServerV, Seq<DeliveryV>) {
    (s, send_to(s, pid, ServerMsgV::RoomList { rooms: room_infos_of(s, s.rooms.len() as int) }))
}

/// A new room, with the creator as its only member and moderator; the creator
/// keeps whatever room and table its record named before only in that record.
pub open spec fn create_room(s: ServerV, pid: u32, name: Seq<char>) -> (ServerV, Seq<DeliveryV>) {
    let rid = s.next_id;
    let room = RoomV {
        id: rid,
        name,
        moderator: pid,
        player_ids: seq![pid],
        next_table_id: 1,
        main_board_mode: BoardMode::Tutorial,
        main_board_pos: start_position(),
    };
    let info = RoomInfoV { id: rid, name, player_count: 1, table_count: 0, active_games: 0 };
    let s1 = ServerV { next_id: (rid + 1) as u32, rooms: s.rooms.push(room), ..s };
    let pi = player_idx(s1, pid);
    let s2 = with_player(s1, pi, PlayerV { room_id: Some(rid), ..s1.players[pi] });
    (
        s2,
        send_to(
            s2,
            pid,
            ServerMsgV::RoomJoined {
                room: info,
                players: seq![info_of(s2, pid).unwrap()],
                tables: seq![],
            },
        ),
    )
}

/// The player leaves its room and joins room `room_id`, if there is one.
pub open spec fn join_room(s: ServerV, pid: u32, room_id: u32) -> (ServerV, Seq<DeliveryV>) {
    let lr = leave_room(s, pid);
    let s1 = lr.0;
    let ri = room_idx(s1, room_id);
    if ri < 0 {
        (s1, lr.1 + send_to(s1, pid, ServerMsgV::Error { msg: "Room not found"@ }))
    } else {
        let s2 = with_room(
            s1,
            ri,
            RoomV { player_ids: s1.rooms[ri].player_ids.push(pid), ..s1.rooms[ri] },
        );
        let pi = player_idx(s2, pid);
        let s3 = with_player(s2, pi, PlayerV { room_id: Some(room_id), ..s2.players[pi] });
        let r = s3.rooms[ri];
        let joined = ServerMsgV::RoomJoined {
            room: room_info_of(s3, r),
            players: infos_of(s3, r.player_ids, r.player_ids.len() as int),
            tables: table_infos_of(s3, room_id, s3.tables.len() as int),
        };
        let me = info_of(s3, pid).unwrap();
        (
            s3,
            lr.1 + send_to(s3, pid, joined) + broadcast(
                s3,
                room_id,
                ServerMsgV::PlayerJoined { player: me },
                Some(pid),
            ) + system_chat(s3, room_id, me.name + " joined"@),
        )
    }
}

/// A new table in the player's room, with the player in the white seat.
pub open spec fn create_table(s: ServerV, pid: u32, time_control: TimeControl) -> (
    ServerV,
    Seq<DeliveryV>,
) {
    match room_of(s, pid) {
        None => (s, seq![]),
        Some(rid) => {
            let ri = room_idx(s, rid);
            if ri < 0 {
                (s, seq![])
            } else {
                let tid = s.rooms[ri].next_table_id;
                let s1 = with_room(
                    s,
                    ri,
                    RoomV { next_table_id: (tid + 1) as u32, ..s.rooms[ri] },
                );
                let t = TableV {
                    id: tid,
                    room_id: rid,
                    white: Some(pid),
                    black: None,
                    spectators: seq![],
                    position: start_position(),
                    game_active: false,
                    time_control,
                };
                let s2 = ServerV { tables: s1.tables.push(t), ..s1 };
                let pi = player_idx(s2, pid);
                let s3 = with_player(s2, pi, PlayerV { table_id: Some(tid), ..s2.players[pi] });
                (
                    s3,
                    broadcast(s3, rid, ServerMsgV::TableCreated { table: table_info_of(s1, t) }, None)
                        + system_chat(s3, rid, name_of(s3, pid) + " created a game table"@),
                )
            }
        },
    }
}

/// The table after player `pid` sits down: in the white seat if free, else
/// in the black seat if free, else among the spectators.
pub open spec fn seated(t: TableV, pid: u32) -> TableV {
    if t.white is None {
        TableV { white: Some(pid), ..t }
    } else if t.black is None {
        TableV { black: Some(pid), ..t }
    } else {
        TableV { spectators: t.spectators.push(pid), ..t }
    }
}

/// The player leaves its table and sits at table `table_id` of its room; a
/// game starts when both seats are taken and none is going.
pub open spec fn join_table(s: ServerV, pid: u32, table_id: u32) -> (ServerV, Seq<DeliveryV>) {
    match room_of(s, pid) {
        None => (s, seq![]),
        Some(rid) => {
            let lt = leave_table(s, pid);
            let s1 = lt.0;
            let ti = table_idx(s1, rid, table_id);
            if room_idx(s1, rid) < 0 {
                lt
            } else if ti < 0 {
                (s1, lt.1 + send_to(s1, pid, ServerMsgV::Error { msg: "Table not found"@ }))
            } else {
                let t2 = seated(s1.tables[ti], pid);
                let s2 = with_table(s1, ti, t2);
                let pi = player_idx(s2, pid);
                let s3 = if pi >= 0 {
                    with_player(s2, pi, PlayerV { table_id: Some(table_id), ..s2.players[pi] })
                } else {
                    s2
                };
                let info = table_info_of(s3, t2);
                let said = lt.1 + send_to(
                    s3,
                    pid,
                    ServerMsgV::TableJoined { table: info, fen: spec_position_to_fen(t2.position) },
                ) + broadcast(s3, rid, ServerMsgV::TableUpdated { table: info }, Some(pid));
                if t2.white is Some && t2.black is Some && !t2.game_active {
                    let w = t2.white.unwrap();
                    let b = t2.black.unwrap();
                    let s4 = with_table(
                        s3,
                        ti,
                        TableV { game_active: true, position: start_position(), ..t2 },
                    );
                    (
                        s4,
                        said + broadcast(
                            s4,
                            rid,
                            ServerMsgV::GameStarted {
                                table_id,
                                white: w,
                                black: b,
                                fen: spec_position_to_fen(start_position()),
                                time_control: t2.time_control,
                            },
                            None,
                        ) + system_chat(
                            s4,
                            rid,
                            name_of(s4, w) + " vs "@ + name_of(s4, b) + " \u{2014} game started!"@,
                        ),
                    )
                } else {
                    (s3, said)
                }
            }
        },
    }
}

/// Whether player `pid` holds the seat of the side to move at table `t`.
pub open spec fn on_move(t: TableV, pid: u32) -> bool {
    if t.position.side_to_move == Color::White {
        t.white == Some(pid)
    } else {
        t.black == Some(pid)
    }
}

/// A move at the player's table: made when a game is going, the player has
/// the move, the text names a move and the move is legal; else refused with
/// the reason. Checkmate and stalemate end the game.
pub open spec fn make_move(s: ServerV, pid: u32, uci: Seq<char>) -> (ServerV, Seq<DeliveryV>) {
    match loc_of(s, pid) {
        None => (s, seq![]),
        Some((rid, tid)) => {
            let ti = table_idx(s, rid, tid);
            if room_idx(s, rid) < 0 || ti < 0 {
                (s, seq![])
            } else {
                let t = s.tables[ti];
                if !t.game_active {
                    (s, send_to(s, pid, ServerMsgV::Error { msg: "No active game"@ }))
                } else if !on_move(t, pid) {
                    (s, send_to(s, pid, ServerMsgV::Error { msg: "Not your turn"@ }))
                } else {
                    match spec_from_uci(encode_utf8(uci)) {
                        None => (s, send_to(s, pid, ServerMsgV::Error { msg: "Bad move format"@ })),
                        Some(mv) => if !spec_legal_moves(t.position).contains(mv) {
                            (s, send_to(s, pid, ServerMsgV::Error { msg: "Illegal move"@ }))
                        } else {
                            let pos = spec_make_move(t.position, mv);
                            let s1 = with_table(s, ti, TableV { position: pos, ..t });
                            let made = broadcast(
                                s1,
                                rid,
                                ServerMsgV::MoveMade {
                                    table_id: tid,
                                    uci,
                                    fen: spec_position_to_fen(pos),
                                    white_time_ms: 0,
                                    black_time_ms: 0,
                                },
                                None,
                            );
                            if mated(pos) || stalemated(pos) {
                                let over = broadcast(
                                    s1,
                                    rid,
                                    ServerMsgV::GameOver {
                                        table_id: tid,
                                        reason: if mated(pos) {
                                            "Checkmate"@
                                        } else {
                                            "Stalemate"@
                                        },
                                        winner: if mated(pos) {
                                            Some(pid)
                                        } else {
                                            None
                                        },
                                    },
                                    None,
                                );
                                let e = end_game(s1, rid, tid);
                                (e.0, made + over + e.1)
                            } else {
                                (s1, made)
                            }
                        },
                    }
                }
            }
        },
    }
}

/// The player gives up the game at its table; the other seat wins.
pub open spec fn resign(s: ServerV, pid: u32) -> (ServerV, Seq<DeliveryV>) {
    match loc_of(s, pid) {
        None => (s, seq![]),
        Some((rid, tid)) => {
            let ti = table_idx(s, rid, tid);
            if room_idx(s, rid) < 0 || ti < 0 {
                (s, seq![])
            } else {
                let t = s.tables[ti];
                let winner = if t.white == Some(pid) {
                    t.black
                } else {
                    t.white
                };
                let e = end_game(s, rid, tid);
                (
                    e.0,
                    broadcast(
                        s,
                        rid,
                        ServerMsgV::GameOver {
                            table_id: tid,
                            reason: name_of(s, pid) + " resigned"@,
                            winner,
                        },
                        None,
                    ) + e.1,
                )
            }
        },
    }
}

pub open spec fn send_chat(s: ServerV, pid: u32, body: Seq<char>) -> (ServerV, Seq<DeliveryV>) {
    match room_of(s, pid) {
        None => (s, seq![]),
        Some(rid) => (
            s,
            broadcast(
                s,
                rid,
                ServerMsgV::ChatMessage { sender: name_of(s, pid), body, kind: ChatKind::Player },
                None,
            ),
        ),
    }
}

/// The moderator sets the main board's mode; the board starts over.
pub open spec fn set_main_board_mode(s: ServerV, pid: u32, mode: BoardMode) -> (
    ServerV,
    Seq<DeliveryV>,
) {
    match room_of(s, pid) {
        None => (s, seq![]),
        Some(rid) => {
            let ri = room_idx(s, rid);
            if ri >= 0 && s.rooms[ri].moderator == pid {
                let s1 = with_room(
                    s,
                    ri,
                    RoomV { main_board_mode: mode, main_board_pos: start_position(), ..s.rooms[ri] },
                );
                (
                    s1,
                    broadcast(
                        s1,
                        rid,
                        ServerMsgV::MainBoardUpdate {
                            mode,
                            fen: spec_position_to_fen(start_position()),
                        },
                        None,
                    ),
                )
            } else {
                (s, seq![])
            }
        },
    }
}

/// A new game at the player's table with the colours swapped, when both
/// seats are taken and no game is going.
pub open spec fn rematch(s: ServerV, pid: u32) -> (ServerV, Seq<DeliveryV>) {
    match loc_of(s, pid) {
        None => (s, seq![]),
        Some((rid, tid)) => {
            let ti = table_idx(s, rid, tid);
            if room_idx(s, rid) >= 0 && ti >= 0 && !s.tables[ti].game_active
                && s.tables[ti].white is Some && s.tables[ti].black is Some {
                let t = s.tables[ti];
                let w = t.black.unwrap();
                let b = t.white.unwrap();
                let s1 = with_table(
                    s,
                    ti,
                    TableV {
                        white: t.black,
                        black: t.white,
                        game_active: true,
                        position: start_position(),
                        ..t
                    },
                );
                (
                    s1,
                    broadcast(
                        s1,
                        rid,
                        ServerMsgV::GameStarted {
                            table_id: tid,
                            white: w,
                            black: b,
                            fen: start_fen(),
                            time_control: t.time_control,
                        },
                        None,
                    ) + system_chat(
                        s1,
                        rid,
                        "Rematch! "@ + name_of(s1, w) + " (W) vs "@ + name_of(s1, b) + " (B)"@,
                    ),
                )
            } else {
                (s, seq![])
            }
        },
    }
}

/// The moderator makes a move on the main board, legal or not.
pub open spec fn main_board_move(s: ServerV, pid: u32, uci: Seq<char>) -> (
    ServerV,
    Seq<DeliveryV>,
) {
    match room_of(s, pid) {
        None => (s, seq![]),
        Some(rid) => {
            let ri = room_idx(s, rid);
            if ri >= 0 && s.rooms[ri].moderator == pid {
                match spec_from_uci(encode_utf8(uci)) {
                    Some(mv) => {
                        let r = s.rooms[ri];
                        let pos = spec_make_move(r.main_board_pos, mv);
                        let s1 = with_room(s, ri, RoomV { main_board_pos: pos, ..r });
                        (
                            s1,
                            broadcast(
                                s1,
                                rid,
                                ServerMsgV::MainBoardUpdate {
                                    mode: r.main_board_mode,
                                    fen: spec_position_to_fen(pos),
                                },
                                None,
                            ),
                        )
                    },
                    None => (s, seq![]),
                }
            } else {
                (s, seq![])
            }
        },
    }
}


/// What a message needs of the state so that answering it cannot overflow a
/// counter or miss the sender's record: a new room needs an id left and a
/// connected sender, joining a room a connected sender, a new table a table
/// number left in the sender's room.
pub open spec fn can_handle(s: ServerV, pid: u32, msg: ClientMsgV) -> bool {
    match msg {
        ClientMsgV::CreateRoom { .. } => s.next_id < u32::MAX && player_idx(s, pid) >= 0,
        ClientMsgV::JoinRoom { .. } => player_idx(s, pid) >= 0,
        ClientMsgV::CreateTable { .. } => table_ids_left(s, pid),
        _ => true,
    }
}

/// The server's answer to message `msg` from player `pid`.
pub open spec fn handle(s: ServerV, pid: u32, msg: ClientMsgV) -> (ServerV, Seq<DeliveryV>) {
    match msg {
        ClientMsgV::SetName { name } => set_name(s, pid, name),
        ClientMsgV::ListRooms => list_rooms(s, pid),
        ClientMsgV::CreateRoom { name } => create_room(s, pid, name),
        ClientMsgV::JoinRoom { room_id } => join_room(s, pid, room_id),
        ClientMsgV::LeaveRoom => leave_room(s, pid),
        ClientMsgV::CreateTable { time_control } => create_table(s, pid, time_control),
        ClientMsgV::JoinTable { table_id } => join_table(s, pid, table_id),
        ClientMsgV::LeaveTable => leave_table(s, pid),
        ClientMsgV::MakeMove { uci } => make_move(s, pid, uci),
        ClientMsgV::Resign => resign(s, pid),
        ClientMsgV::Rematch => rematch(s, pid),
        ClientMsgV::SetMainBoardMode { mode } => set_main_board_mode(s, pid, mode),
        ClientMsgV::MainBoardMove { uci } => main_board_move(s, pid, uci),
        ClientMsgV::SendChat { body } => send_chat(s, pid, body),
    }
}

impl ServerState {
    pub(crate) fn room_of_player(&self, pid: u32) -> (r: Option<u32>)
        ensures
            r == room_of(self@, pid),
    {
        match self.player_index(pid) {
            Some(i) => self.players[i].room_id,
            None => None,
        }
    }

    pub(crate) fn location(&self, pid: u32) -> (r: Option<(u32, u32)>)
        ensures
            r == loc_of(self@, pid),
    {
        match self.player_index(pid) {
            Some(i) => match (self.players[i].room_id, self.players[i].table_id) {
                (Some(r), Some(t)) => Some((r, t)),
                _ => None,
            },
            None => None,
        }
    }

    fn on_set_name(&mut self, pid: u32, name: String, out: &mut Vec<Delivery>)
        ensures
            final(self)@ == set_name(old(self)@, pid, name@).0,
            deliveries_view(final(out)@) == deliveries_view(old(out)@) + set_name(
                old(self)@,
                pid,
                name@,
            ).1,
    {
        assert(deliveries_view(out@) =~= deliveries_view(out@) + seq![]);
        match self.player_index(pid) {
            Some(i) => self.set_player_name(i, name),
            None => {},
        }
    }

    fn on_list_rooms(&self, pid: u32, out: &mut Vec<Delivery>)
        ensures
            deliveries_view(final(out)@) == deliveries_view(old(out)@) + list_rooms(self@, pid).1,
    {
        let rooms = self.all_room_infos();
        self.send_to(out, pid, ServerMsg::RoomList { rooms });
    }

    fn on_send_chat(&self, pid: u32, body: String, out: &mut Vec<Delivery>)
        ensures
            deliveries_view(final(out)@) == deliveries_view(old(out)@) + send_chat(
                self@,
                pid,
                body@,
            ).1,
    {
        assert(deliveries_view(out@) =~= deliveries_view(out@) + seq![]);
        match self.room_of_player(pid) {
            Some(rid) => {
                let sender = self.player_name(pid);
                self.broadcast_room(
                    out,
                    rid,
                    ServerMsg::ChatMessage { sender, body, kind: ChatKind::Player },
                    None,
                );
            },
            None => {},
        }
    }

    fn on_set_main_board_mode(&mut self, pid: u32, mode: BoardMode, out: &mut Vec<Delivery>)
        ensures
            final(self)@ == set_main_board_mode(old(self)@, pid, mode).0,
            deliveries_view(final(out)@) == deliveries_view(old(out)@) + set_main_board_mode(
                old(self)@,
                pid,
                mode,
            ).1,
    {
        assert(deliveries_view(out@) =~= deliveries_view(out@) + seq![]);
        let rid = match self.room_of_player(pid) {
            Some(r) => r,
            None => {
                return ;
            },
        };
        let ri = match self.room_index(rid) {
            Some(i) => i,
            None => {
                return ;
            },
        };
        if self.rooms[ri].moderator != pid {
            return ;
        }
        let r0 = &self.rooms[ri];
        let r = Room {
            id: r0.id,
            name: clone_string(&r0.name),
            moderator: r0.moderator,
            player_ids: clone_ids(&r0.player_ids),
            next_table_id: r0.next_table_id,
            main_board_mode: mode,
            main_board_pos: Position::start(),
        };
        let ghost rv = RoomV {
            main_board_mode: mode,
            main_board_pos: start_position(),
            ..old(self)@.rooms[ri as int]
        };
        assert(r@ == rv);
        self.put_room(ri, r);
        let fen = position_to_fen(&Position::start());
        self.broadcast_room(out, rid, ServerMsg::MainBoardUpdate { mode, fen }, None);
    }

    fn on_resign(&mut self, pid: u32, out: &mut Vec<Delivery>)
        ensures
            final(self)@ == resign(old(self)@, pid).0,
            deliveries_view(final(out)@) == deliveries_view(old(out)@) + resign(old(self)@, pid).1,
    {
        let ghost out0 = deliveries_view(out@);
        assert(out0 =~= out0 + seq![]);
        let (rid, tid) = match self.location(pid) {
            Some(loc) => loc,
            None => {
                return ;
            },
        };
        if self.room_index(rid).is_none() {
            return ;
        }
        let ti = match self.table_index(rid, tid) {
            Some(i) => i,
            None => {
                return ;
            },
        };
        let winner = if self.tables[ti].white == Some(pid) {
            self.tables[ti].black
        } else {
            self.tables[ti].white
        };
        let mut reason = self.player_name(pid);
        append_str(&mut reason, " resigned");
        self.broadcast_room(out, rid, ServerMsg::GameOver { table_id: tid, reason, winner }, None);
        let ghost out1 = deliveries_view(out@);
        self.end_game(rid, tid, out);
        assert(deliveries_view(out@) =~= out0 + resign(old(self)@, pid).1);
    }
}

impl ServerState {
    fn on_create_room(&mut self, pid: u32, name: String, out: &mut Vec<Delivery>)
        requires
            old(self).next_id < u32::MAX,
            player_idx(old(self)@, pid) >= 0,
        ensures
            final(self)@ == create_room(old(self)@, pid, name@).0,
            deliveries_view(final(out)@) == deliveries_view(old(out)@) + create_room(
                old(self)@,
                pid,
                name@,
            ).1,
    {
        let rid = self.next_id;
        self.next_id = rid + 1;
        let info = RoomInfo {
            id: rid,
            name: clone_string(&name),
            player_count: 1,
            table_count: 0,
            active_games: 0,
        };
        let mut ids: Vec<u32> = Vec::new();
        ids.push(pid);
        self.rooms.push(
            Room {
                id: rid,
                name,
                moderator: pid,
                player_ids: ids,
                next_table_id: 1,
                main_board_mode: BoardMode::Tutorial,
                main_board_pos: Position::start(),
            },
        );
        let ghost s1 = self@;
        assert(s1.rooms =~= old(self)@.rooms.push(create_room(old(self)@, pid, name@).0.rooms.last()));
        let pi = match self.player_index(pid) {
            Some(i) => i,
            None => {
                return ;
            },
        };
        let ghost s_pre = self@;
        self.set_player_room(pi, Some(rid));
        proof {
            lemma_same_ids(s_pre.players, self@.players, pid, 0);
        }
        let me = match self.player_info(pid) {
            Some(x) => x,
            None => {
                return ;
            },
        };
        let mut players: Vec<PlayerInfo> = Vec::new();
        players.push(me);
        assert(players_view(players@) =~= seq![info_of(self@, pid).unwrap()]);
        let tables: Vec<TableInfo> = Vec::new();
        assert(tables_view(tables@) =~= seq![]);
        self.send_to(out, pid, ServerMsg::RoomJoined { room: info, players, tables });
    }

    fn on_join_room(&mut self, pid: u32, room_id: u32, out: &mut Vec<Delivery>)
        requires
            player_idx(old(self)@, pid) >= 0,
        ensures
            final(self)@ == join_room(old(self)@, pid, room_id).0,
            deliveries_view(final(out)@) == deliveries_view(old(out)@) + join_room(
                old(self)@,
                pid,
                room_id,
            ).1,
    {
        let ghost s0 = self@;
        let ghost out0 = deliveries_view(out@);
        self.leave_room(pid, out);
        let ghost s1 = self@;
        let ghost out1 = deliveries_view(out@);
        proof {
            lemma_same_ids(s0.players, s1.players, pid, 0);
        }
        let ri = match self.room_index(room_id) {
            Some(i) => i,
            None => {
                self.send_to(out, pid, ServerMsg::Error { msg: "Room not found".to_owned() });
                return ;
            },
        };
        let r0 = &self.rooms[ri];
        let mut ids = clone_ids(&r0.player_ids);
        ids.push(pid);
        let r = Room {
            id: r0.id,
            name: clone_string(&r0.name),
            moderator: r0.moderator,
            player_ids: ids,
            next_table_id: r0.next_table_id,
            main_board_mode: r0.main_board_mode,
            main_board_pos: r0.main_board_pos,
        };
        let ghost rv = RoomV { player_ids: s1.rooms[ri as int].player_ids.push(pid), ..s1.rooms[ri as int] };
        assert(r@ == rv);
        self.put_room(ri, r);
        let pi = match self.player_index(pid) {
            Some(i) => i,
            None => {
                return ;
            },
        };
        let ghost s_pre = self@;
        self.set_player_room(pi, Some(room_id));
        let ghost s3 = self@;
        proof {
            lemma_same_ids(s_pre.players, s3.players, pid, 0);
        }
        let info = self.room_info(&self.rooms[ri]);
        let players = self.players_info(&self.rooms[ri].player_ids);
        let tables = self.room_tables_info(room_id);
        self.send_to(out, pid, ServerMsg::RoomJoined { room: info, players, tables });
        let ghost out2 = deliveries_view(out@);
        let me = match self.player_info(pid) {
            Some(x) => x,
            None => {
                return ;
            },
        };
        let mut body = clone_string(&me.name);
        append_str(&mut body, " joined");
        self.broadcast_room(out, room_id, ServerMsg::PlayerJoined { player: me }, Some(pid));
        self.broadcast_room(
            out,
            room_id,
            ServerMsg::ChatMessage { sender: String::new(), body, kind: ChatKind::System },
            None,
        );
        assert(deliveries_view(out@) =~= out0 + join_room(s0, pid, room_id).1);
    }

    fn on_create_table(&mut self, pid: u32, time_control: TimeControl, out: &mut Vec<Delivery>)
        requires
            table_ids_left(old(self)@, pid),
        ensures
            final(self)@ == create_table(old(self)@, pid, time_control).0,
            deliveries_view(final(out)@) == deliveries_view(old(out)@) + create_table(
                old(self)@,
                pid,
                time_control,
            ).1,
    {
        let ghost s0 = self@;
        let ghost out0 = deliveries_view(out@);
        assert(out0 =~= out0 + seq![]);
        let rid = match self.room_of_player(pid) {
            Some(r) => r,
            None => {
                return ;
            },
        };
        let ri = match self.room_index(rid) {
            Some(i) => i,
            None => {
                return ;
            },
        };
        let tid = self.rooms[ri].next_table_id;
        let r0 = &self.rooms[ri];
        let r = Room {
            id: r0.id,
            name: clone_string(&r0.name),
            moderator: r0.moderator,
            player_ids: clone_ids(&r0.player_ids),
            next_table_id: tid + 1,
            main_board_mode: r0.main_board_mode,
            main_board_pos: r0.main_board_pos,
        };
        let ghost rv = RoomV { next_table_id: (tid + 1) as u32, ..s0.rooms[ri as int] };
        assert(r@ == rv);
        self.put_room(ri, r);
        let t = GameTable {
            id: tid,
            room_id: rid,
            white: Some(pid),
            black: None,
            spectators: Vec::new(),
            position: Position::start(),
            game_active: false,
            time_control,
        };
        let info = self.table_info(&t);
        let ghost tv = t@;
        self.tables.push(t);
        assert(self@.tables =~= s0.tables.push(tv));
        let pi = match self.player_index(pid) {
            Some(i) => i,
            None => {
                return ;
            },
        };
        self.set_player_table(pi, Some(tid));
        self.broadcast_room(out, rid, ServerMsg::TableCreated { table: info }, None);
        let mut body = self.player_name(pid);
        append_str(&mut body, " created a game table");
        self.broadcast_room(
            out,
            rid,
            ServerMsg::ChatMessage { sender: String::new(), body, kind: ChatKind::System },
            None,
        );
        assert(deliveries_view(out@) =~= out0 + create_table(s0, pid, time_control).1);
    }
}

/// Whether `moves` holds `mv`.
fn has_move(moves: &Vec<Move>, mv: Move) -> (r: bool)
    ensures
        r == moves@.contains(mv),
{
    let mut i: usize = 0;
    while i < moves.len()
        invariant
            i <= moves.len(),
            forall|k: int| 0 <= k < i ==> moves@[k] != mv,
        decreases moves.len() - i,
    {
        if moves[i] == mv {
            assert(moves@[i as int] == mv);
            return true;
        }
        i += 1;
    }
    false
}

impl ServerState {
    fn on_join_table(&mut self, pid: u32, table_id: u32, out: &mut Vec<Delivery>)
        ensures
            final(self)@ == join_table(old(self)@, pid, table_id).0,
            deliveries_view(final(out)@) == deliveries_view(old(out)@) + join_table(
                old(self)@,
                pid,
                table_id,
            ).1,
    {
        let ghost s0 = self@;
        let ghost out0 = deliveries_view(out@);
        assert(out0 =~= out0 + seq![]);
        let rid = match self.room_of_player(pid) {
            Some(r) => r,
            None => {
                return ;
            },
        };
        self.leave_table(pid, out);
        let ghost s1 = self@;
        let ghost out1 = deliveries_view(out@);
        if self.room_index(rid).is_none() {
            return ;
        }
        let ti = match self.table_index(rid, table_id) {
            Some(i) => i,
            None => {
                self.send_to(out, pid, ServerMsg::Error { msg: "Table not found".to_owned() });
                return ;
            },
        };
        let t0 = &self.tables[ti];
        let mut white = t0.white;
        let mut black = t0.black;
        let mut spectators = clone_ids(&t0.spectators);
        if white.is_none() {
            white = Some(pid);
        } else if black.is_none() {
            black = Some(pid);
        } else {
            spectators.push(pid);
        }
        let t = GameTable {
            id: t0.id,
            room_id: t0.room_id,
            white,
            black,
            spectators,
            position: t0.position,
            game_active: t0.game_active,
            time_control: t0.time_control,
        };
        let ghost t2 = seated(s1.tables[ti as int], pid);
        assert(t@ == t2);
        self.put_table(ti, t);
        match self.player_index(pid) {
            Some(pi) => self.set_player_table(pi, Some(table_id)),
            None => {},
        }
        let ghost s3 = self@;
        assert(self@.tables[ti as int] == t2);
        assert(self@.tables.len() == self.tables@.len());
        let info = self.table_info(&self.tables[ti]);
        let fen = position_to_fen(&self.tables[ti].position);
        self.send_to(out, pid, ServerMsg::TableJoined { table: info, fen });
        let info2 = self.table_info(&self.tables[ti]);
        self.broadcast_room(out, rid, ServerMsg::TableUpdated { table: info2 }, Some(pid));
        let ghost out3 = deliveries_view(out@);
        let active = self.tables[ti].game_active;
        let tc = self.tables[ti].time_control;
        match (white, black) {
            (Some(w), Some(b)) => {
                if !active {
                    let t1 = &self.tables[ti];
                    let t3 = GameTable {
                        id: t1.id,
                        room_id: t1.room_id,
                        white: t1.white,
                        black: t1.black,
                        spectators: clone_ids(&t1.spectators),
                        position: Position::start(),
                        game_active: true,
                        time_control: t1.time_control,
                    };
                    let ghost tv3 = TableV { game_active: true, position: start_position(), ..t2 };
                    assert(t3@ == tv3);
                    self.put_table(ti, t3);
                    let fen = position_to_fen(&Position::start());
                    self.broadcast_room(
                        out,
                        rid,
                        ServerMsg::GameStarted { table_id, white: w, black: b, fen, time_control: tc },
                        None,
                    );
                    let mut body = self.player_name(w);
                    append_str(&mut body, " vs ");
                    let bname = self.player_name(b);
                    append_str(&mut body, bname.as_str());
                    append_str(&mut body, " \u{2014} game started!");
                    self.broadcast_room(
                        out,
                        rid,
                        ServerMsg::ChatMessage { sender: String::new(), body, kind: ChatKind::System },
                        None,
                    );
                }
            },
            _ => {},
        }
        assert(deliveries_view(out@) =~= out0 + join_table(s0, pid, table_id).1);
    }
}

impl ServerState {
    fn refuse(&self, out: &mut Vec<Delivery>, pid: u32, why: &str)
        ensures
            deliveries_view(final(out)@) == deliveries_view(old(out)@) + send_to(
                self@,
                pid,
                ServerMsgV::Error { msg: why@ },
            ),
    {
        self.send_to(out, pid, ServerMsg::Error { msg: why.to_owned() });
    }

    fn on_make_move(&mut self, pid: u32, uci: String, out: &mut Vec<Delivery>)
        ensures
            final(self)@ == make_move(old(self)@, pid, uci@).0,
            deliveries_view(final(out)@) == deliveries_view(old(out)@) + make_move(
                old(self)@,
                pid,
                uci@,
            ).1,
    {
        let ghost s0 = self@;
        let ghost out0 = deliveries_view(out@);
        assert(out0 =~= out0 + seq![]);
        let (rid, tid) = match self.location(pid) {
            Some(loc) => loc,
            None => {
                return ;
            },
        };
        if self.room_index(rid).is_none() {
            return ;
        }
        let ti = match self.table_index(rid, tid) {
            Some(i) => i,
            None => {
                return ;
            },
        };
        let pos0 = self.tables[ti].position;
        if !self.tables[ti].game_active {
            self.refuse(out, pid, "No active game");
            return ;
        }
        let correct = if pos0.side_to_move == Color::White {
            self.tables[ti].white == Some(pid)
        } else {
            self.tables[ti].black == Some(pid)
        };
        if !correct {
            self.refuse(out, pid, "Not your turn");
            return ;
        }
        let mv = match Move::from_uci(uci.as_str()) {
            Some(m) => m,
            None => {
                self.refuse(out, pid, "Bad move format");
                return ;
            },
        };
        let legal = pos0.legal_moves();
        if !has_move(&legal, mv) {
            self.refuse(out, pid, "Illegal move");
            return ;
        }
        proof {
            let k = choose|k: int| 0 <= k < legal@.len() && legal@[k] == mv;
            assert(move_in_range(legal@[k]));
        }
        let pos = pos0.make_move(mv);
        let t0 = &self.tables[ti];
        let t = GameTable {
            id: t0.id,
            room_id: t0.room_id,
            white: t0.white,
            black: t0.black,
            spectators: clone_ids(&t0.spectators),
            position: pos,
            game_active: t0.game_active,
            time_control: t0.time_control,
        };
        let ghost tv = TableV { position: pos, ..s0.tables[ti as int] };
        assert(t@ == tv);
        self.put_table(ti, t);
        let ghost s1 = self@;
        let fen = position_to_fen(&pos);
        self.broadcast_room(
            out,
            rid,
            ServerMsg::MoveMade { table_id: tid, uci, fen, white_time_ms: 0, black_time_ms: 0 },
            None,
        );
        let checkmate = pos.is_checkmate();
        let stalemate = pos.is_stalemate();
        if checkmate || stalemate {
            let reason = if checkmate {
                "Checkmate".to_owned()
            } else {
                "Stalemate".to_owned()
            };
            let winner = if checkmate {
                Some(pid)
            } else {
                None
            };
            self.broadcast_room(out, rid, ServerMsg::GameOver { table_id: tid, reason, winner }, None);
            self.end_game(rid, tid, out);
        }
        assert(deliveries_view(out@) =~= out0 + make_move(s0, pid, uci@).1);
    }

    fn on_rematch(&mut self, pid: u32, out: &mut Vec<Delivery>)
        ensures
            final(self)@ == rematch(old(self)@, pid).0,
            deliveries_view(final(out)@) == deliveries_view(old(out)@) + rematch(old(self)@, pid).1,
    {
        let ghost s0 = self@;
        let ghost out0 = deliveries_view(out@);
        assert(out0 =~= out0 + seq![]);
        let (rid, tid) = match self.location(pid) {
            Some(loc) => loc,
            None => {
                return ;
            },
        };
        if self.room_index(rid).is_none() {
            return ;
        }
        let ti = match self.table_index(rid, tid) {
            Some(i) => i,
            None => {
                return ;
            },
        };
        if self.tables[ti].game_active {
            return ;
        }
        let (b, w) = match (self.tables[ti].white, self.tables[ti].black) {
            (Some(x), Some(y)) => (x, y),
            _ => {
                return ;
            },
        };
        let t0 = &self.tables[ti];
        let tc = t0.time_control;
        let t = GameTable {
            id: t0.id,
            room_id: t0.room_id,
            white: Some(w),
            black: Some(b),
            spectators: clone_ids(&t0.spectators),
            position: Position::start(),
            game_active: true,
            time_control: tc,
        };
        let ghost tv = TableV {
            white: s0.tables[ti as int].black,
            black: s0.tables[ti as int].white,
            game_active: true,
            position: start_position(),
            ..s0.tables[ti as int]
        };
        assert(t@ == tv);
        self.put_table(ti, t);
        let fen = "rnbqkbnr/pppppppp/8/8/8/8/PPPPPPPP/RNBQKBNR w KQkq - 0 1".to_owned();
        self.broadcast_room(
            out,
            rid,
            ServerMsg::GameStarted { table_id: tid, white: w, black: b, fen, time_control: tc },
            None,
        );
        let mut body = "Rematch! ".to_owned();
        let wname = self.player_name(w);
        append_str(&mut body, wname.as_str());
        append_str(&mut body, " (W) vs ");
        let bname = self.player_name(b);
        append_str(&mut body, bname.as_str());
        append_str(&mut body, " (B)");
        self.broadcast_room(
            out,
            rid,
            ServerMsg::ChatMessage { sender: String::new(), body, kind: ChatKind::System },
            None,
        );
        assert(deliveries_view(out@) =~= out0 + rematch(s0, pid).1);
    }

    fn on_main_board_move(&mut self, pid: u32, uci: String, out: &mut Vec<Delivery>)
        ensures
            final(self)@ == main_board_move(old(self)@, pid, uci@).0,
            deliveries_view(final(out)@) == deliveries_view(old(out)@) + main_board_move(
                old(self)@,
                pid,
                uci@,
            ).1,
    {
        let ghost s0 = self@;
        let ghost out0 = deliveries_view(out@);
        assert(out0 =~= out0 + seq![]);
        let rid = match self.room_of_player(pid) {
            Some(r) => r,
            None => {
                return ;
            },
        };
        let ri = match self.room_index(rid) {
            Some(i) => i,
            None => {
                return ;
            },
        };
        if self.rooms[ri].moderator != pid {
            return ;
        }
        let mv = match Move::from_uci(uci.as_str()) {
            Some(m) => m,
            None => {
                return ;
            },
        };
        let r0 = &self.rooms[ri];
        let pos = r0.main_board_pos.make_move(mv);
        let mode = r0.main_board_mode;
        let r = Room {
            id: r0.id,
            name: clone_string(&r0.name),
            moderator: r0.moderator,
            player_ids: clone_ids(&r0.player_ids),
            next_table_id: r0.next_table_id,
            main_board_mode: mode,
            main_board_pos: pos,
        };
        let ghost rv = RoomV { main_board_pos: pos, ..s0.rooms[ri as int] };
        assert(r@ == rv);
        self.put_room(ri, r);
        let fen = position_to_fen(&pos);
        self.broadcast_room(out, rid, ServerMsg::MainBoardUpdate { mode, fen }, None);
    }
}

impl ServerState {
    /// A server with no players and no rooms.
    pub fn new() -> (s: Self)
        ensures
            s@ == (ServerV { next_id: 1, players: seq![], rooms: seq![], tables: seq![] }),
    {
        let s = ServerState {
            next_id: 1,
            players: Vec::new(),
            rooms: Vec::new(),
            tables: Vec::new(),
        };
        assert(s@.players =~= seq![]);
        assert(s@.rooms =~= seq![]);
        assert(s@.tables =~= seq![]);
        s
    }

    /// Whether message `msg` from player `pid` can be answered (see `can_handle`).
    pub fn can_handle(&self, pid: u32, msg: &ClientMsg) -> (r: bool)
        ensures
            r == can_handle(self@, pid, msg@),
    {
        match msg {
            ClientMsg::CreateRoom { .. } => self.next_id < u32::MAX && self.player_index(pid).is_some(),
            ClientMsg::JoinRoom { .. } => self.player_index(pid).is_some(),
            ClientMsg::CreateTable { .. } => match self.room_of_player(pid) {
                Some(rid) => match self.room_index(rid) {
                    Some(ri) => self.rooms[ri].next_table_id < u32::MAX,
                    None => true,
                },
                None => true,
            },
            _ => true,
        }
    }

    /// Answers message `msg` from player `pid`: updates the state and appends
    /// the messages to deliver to `out`.
    pub fn handle_msg(&mut self, pid: u32, msg: ClientMsg, out: &mut Vec<Delivery>)
        requires
            can_handle(old(self)@, pid, msg@),
        ensures
            final(self)@ == handle(old(self)@, pid, msg@).0,
            deliveries_view(final(out)@) == deliveries_view(old(out)@) + handle(
                old(self)@,
                pid,
                msg@,
            ).1,
    {
        match msg {
            ClientMsg::SetName { name } => self.on_set_name(pid, name, out),
            ClientMsg::ListRooms => self.on_list_rooms(pid, out),
            ClientMsg::CreateRoom { name } => self.on_create_room(pid, name, out),
            ClientMsg::JoinRoom { room_id } => self.on_join_room(pid, room_id, out),
            ClientMsg::LeaveRoom => self.leave_room(pid, out),
            ClientMsg::CreateTable { time_control } => self.on_create_table(pid, time_control, out),
            ClientMsg::JoinTable { table_id } => self.on_join_table(pid, table_id, out),
            ClientMsg::LeaveTable => self.leave_table(pid, out),
            ClientMsg::MakeMove { uci } => self.on_make_move(pid, uci, out),
            ClientMsg::Resign => self.on_resign(pid, out),
            ClientMsg::Rematch => self.on_rematch(pid, out),
            ClientMsg::SetMainBoardMode { mode } => self.on_set_main_board_mode(pid, mode, out),
            ClientMsg::MainBoardMove { uci } => self.on_main_board_move(pid, uci, out),
            ClientMsg::SendChat { body } => self.on_send_chat(pid, body, out),
        }
    }
}

// ── Laws ───────────────────────────────────────────────────────────

/// A rematch at a table with both seats taken and no game going starts a new
/// game from the starting position with the colours swapped.
pub proof fn law_rematch_swaps_colours(s: ServerV, pid: u32, rid: u32, tid: u32)
    requires
        loc_of(s, pid) == Some((rid, tid)),
        room_idx(s, rid) >= 0,
        table_idx(s, rid, tid) >= 0,
        !s.tables[table_idx(s, rid, tid)].game_active,
        s.tables[table_idx(s, rid, tid)].white is Some,
        s.tables[table_idx(s, rid, tid)].black is Some,
    ensures
        ({
            let ti = table_idx(s, rid, tid);
            let t = handle(s, pid, ClientMsgV::Rematch).0.tables[ti];
            &&& t.white == s.tables[ti].black
            &&& t.black == s.tables[ti].white
            &&& t.game_active
            &&& t.position == start_position()
        }),
{
    lemma_table_from(s.tables, rid, tid, 0);
}

/// A player in a room, at no table, who sits at a table whose white seat is
/// taken by someone else and whose black seat is free, while no game is going,
/// takes the black seat and the game starts from the starting position.
pub proof fn law_second_player_starts_game(s: ServerV, pid: u32, rid: u32, table_id: u32)
    requires
        room_of(s, pid) == Some(rid),
        loc_of(s, pid) is None,
        room_idx(s, rid) >= 0,
        table_idx(s, rid, table_id) >= 0,
        s.tables[table_idx(s, rid, table_id)].white is Some,
        s.tables[table_idx(s, rid, table_id)].white != Some(pid),
        s.tables[table_idx(s, rid, table_id)].black is None,
        !s.tables[table_idx(s, rid, table_id)].game_active,
    ensures
        ({
            let ti = table_idx(s, rid, table_id);
            let t = handle(s, pid, ClientMsgV::JoinTable { table_id }).0.tables[ti];
            &&& t.white == s.tables[ti].white
            &&& t.black == Some(pid)
            &&& t.game_active
            &&& t.position == start_position()
        }),
{
    lemma_table_from(s.tables, rid, table_id, 0);
    lemma_player_from(s.players, pid, 0);
}

/// The server changes nothing when it refuses a move; it changes the state
/// only for a legal move, made by the player who has the move in a game
/// that is going.
pub proof fn law_only_legal_moves(s: ServerV, pid: u32, uci: Seq<char>)
    ensures
        handle(s, pid, ClientMsgV::MakeMove { uci }).0 == s || ({
            &&& loc_of(s, pid) is Some
            &&& {
                let (rid, tid) = loc_of(s, pid).unwrap();
                let ti = table_idx(s, rid, tid);
                &&& room_idx(s, rid) >= 0
                &&& ti >= 0
                &&& s.tables[ti].game_active
                &&& on_move(s.tables[ti], pid)
                &&& spec_from_uci(encode_utf8(uci)) is Some
                &&& spec_legal_moves(s.tables[ti].position).contains(
                    spec_from_uci(encode_utf8(uci)).unwrap(),
                )
            }
        }),
{
}

/// A chat message from a player in a room goes, with the sender's name, to
/// every connected member of the room, the sender included.
pub proof fn law_chat_reaches_room(s: ServerV, pid: u32, rid: u32, body: Seq<char>)
    requires
        room_of(s, pid) == Some(rid),
    ensures
        handle(s, pid, ClientMsgV::SendChat { body }) == (
            s,
            seq![
                DeliveryV {
                    to: crate::server::room_audience(s, rid, None),
                    msg: ServerMsgV::ChatMessage {
                        sender: name_of(s, pid),
                        body,
                        kind: ChatKind::Player,
                    },
                },
            ],
        ),
{
}

/// Who hears a room's messages does not depend on the tables.
proof fn lemma_reach_ignores_tables(s: ServerV, ts: Seq<TableV>, ids: Seq<u32>, exclude: Option<u32>, n: int)
    ensures
        crate::server::reachable(ServerV { tables: ts, ..s }, ids, exclude, n)
            == crate::server::reachable(s, ids, exclude, n),
    decreases n,
{
    if n > 0 {
        lemma_reach_ignores_tables(s, ts, ids, exclude, n - 1);
    }
}

/// A legal move by the player who has the move is played: the whole room is
/// told the move and the position after it, and the game goes on from that
/// position, unless the move mates or stalemates, which ends the game and
/// tells the room how.
pub proof fn law_legal_move_is_played(s: ServerV, pid: u32, rid: u32, tid: u32, uci: Seq<char>)
    requires
        loc_of(s, pid) == Some((rid, tid)),
        room_idx(s, rid) >= 0,
        table_idx(s, rid, tid) >= 0,
        s.tables[table_idx(s, rid, tid)].game_active,
        on_move(s.tables[table_idx(s, rid, tid)], pid),
        spec_from_uci(encode_utf8(uci)) matches Some(mv) && spec_legal_moves(
            s.tables[table_idx(s, rid, tid)].position,
        ).contains(mv),
    ensures
        ({
            let ti = table_idx(s, rid, tid);
            let pos = spec_make_move(s.tables[ti].position, spec_from_uci(encode_utf8(uci)).unwrap());
            let r = handle(s, pid, ClientMsgV::MakeMove { uci });
            &&& r.1.len() >= 1
            &&& r.1[0] == DeliveryV {
                to: crate::server::room_audience(s, rid, None),
                msg: ServerMsgV::MoveMade {
                    table_id: tid,
                    uci,
                    fen: spec_position_to_fen(pos),
                    white_time_ms: 0,
                    black_time_ms: 0,
                },
            }
            &&& !(mated(pos) || stalemated(pos)) ==> r.0.tables[ti].position == pos
                && r.0.tables[ti].game_active && r.1.len() == 1
            &&& (mated(pos) || stalemated(pos)) ==> !r.0.tables[ti].game_active && r.1.len() >= 2
                && r.1[1].msg == ServerMsgV::GameOver {
                table_id: tid,
                reason: if mated(pos) {
                    "Checkmate"@
                } else {
                    "Stalemate"@
                },
                winner: if mated(pos) {
                    Some(pid)
                } else {
                    None
                },
            }
        }),
{
    let ti = table_idx(s, rid, tid);
    lemma_table_from(s.tables, rid, tid, 0);
    let t = s.tables[ti];
    let pos = spec_make_move(t.position, spec_from_uci(encode_utf8(uci)).unwrap());
    let s1 = with_table(s, ti, TableV { position: pos, ..t });
    let r = room_idx(s, rid);
    lemma_reach_ignores_tables(s, s1.tables, s.rooms[r].player_ids, None, s.rooms[r].player_ids.len() as int);
    assert(s1 == ServerV { tables: s1.tables, ..s });
    assert(crate::server::room_audience(s1, rid, None) == crate::server::room_audience(s, rid, None));
    let res = handle(s, pid, ClientMsgV::MakeMove { uci });
    assert(res == make_move(s, pid, uci));
    if mated(pos) || stalemated(pos) {
        assert(room_idx(s1, rid) == room_idx(s, rid));
        assert(table_idx(s1, rid, tid) == ti) by {
            lemma_table_from(s1.tables, rid, tid, 0);
        }
        let e = end_game(s1, rid, tid);
        assert(res.0 == e.0);
        assert(e.0.tables[ti].game_active == false);
        assert(res.1[0].to == crate::server::room_audience(s, rid, None));
        assert(res.1[1].msg == ServerMsgV::GameOver {
            table_id: tid,
            reason: if mated(pos) {
                "Checkmate"@
            } else {
                "Stalemate"@
            },
            winner: if mated(pos) {
                Some(pid)
            } else {
                None
            },
        });
    } else {
        assert(res.0 == s1);
        assert(res.1.len() == 1);
    }
}

/// A player in no room who asks to join a room that does not exist is told
/// "Room not found", and nothing changes.
pub proof fn law_missing_room_is_refused(s: ServerV, pid: u32, room_id: u32)
    requires
        room_of(s, pid) is None,
        room_idx(s, room_id) < 0,
    ensures
        handle(s, pid, ClientMsgV::JoinRoom { room_id }) == (
            s,
            send_to(s, pid, ServerMsgV::Error { msg: "Room not found"@ }),
        ),
{
    assert(loc_of(s, pid) is None);
    assert(leave_table(s, pid) == (s, Seq::<DeliveryV>::empty()));
    assert(leave_room(s, pid) == (s, Seq::<DeliveryV>::empty()));
    assert(Seq::<DeliveryV>::empty() + send_to(s, pid, ServerMsgV::Error { msg: "Room not found"@ })
        =~= send_to(s, pid, ServerMsgV::Error { msg: "Room not found"@ }));
}

/// A move the server refuses at a player's table is answered, to that player
/// alone, with an error saying why, and nothing changes: no game going, not
/// the player's turn, a move that is not UCI, or an illegal move.
pub proof fn law_refused_move_is_answered(s: ServerV, pid: u32, rid: u32, tid: u32, uci: Seq<char>)
    requires
        loc_of(s, pid) == Some((rid, tid)),
        room_idx(s, rid) >= 0,
        table_idx(s, rid, tid) >= 0,
        !({
            let t = s.tables[table_idx(s, rid, tid)];
            &&& t.game_active
            &&& on_move(t, pid)
            &&& spec_from_uci(encode_utf8(uci)) matches Some(mv) && spec_legal_moves(
                t.position,
            ).contains(mv)
        }),
    ensures
        ({
            let t = s.tables[table_idx(s, rid, tid)];
            let why = if !t.game_active {
                "No active game"@
            } else if !on_move(t, pid) {
                "Not your turn"@
            } else if spec_from_uci(encode_utf8(uci)) is None {
                "Bad move format"@
            } else {
                "Illegal move"@
            };
            handle(s, pid, ClientMsgV::MakeMove { uci }) == (
                s,
                send_to(s, pid, ServerMsgV::Error { msg: why }),
            )
        }),
{
}

// ── The server's invariant ─────────────────────────────────────────

/// The server's records are consistent: players, rooms, and the tables of
/// each room have unique ids; every player and room id is below the next id
/// to hand out; and every table belongs to a room whose table counter is past
/// the table's number.
pub open spec fn server_wf(s: ServerV) -> bool {
    &&& forall|i: int, j: int|
        #![trigger s.players[i], s.players[j]]
        0 <= i < j < s.players.len() ==> s.players[i].id != s.players[j].id
    &&& forall|i: int| 0 <= i < s.players.len() ==> #[trigger] s.players[i].id < s.next_id
    &&& forall|i: int, j: int|
        #![trigger s.rooms[i], s.rooms[j]]
        0 <= i < j < s.rooms.len() ==> s.rooms[i].id != s.rooms[j].id
    &&& forall|i: int| 0 <= i < s.rooms.len() ==> #[trigger] s.rooms[i].id < s.next_id
    &&& forall|i: int, j: int|
        #![trigger s.tables[i], s.tables[j]]
        0 <= i < j < s.tables.len() ==> !(s.tables[i].room_id == s.tables[j].room_id
            && s.tables[i].id == s.tables[j].id)
    &&& forall|i: int|
        #![trigger s.tables[i]]
        0 <= i < s.tables.len() ==> exists|r: int|
            #![trigger s.rooms[r]]
            0 <= r < s.rooms.len() && s.rooms[r].id == s.tables[i].room_id && s.tables[i].id
                < s.rooms[r].next_table_id
}

proof fn lemma_wf_with_player(s: ServerV, i: int, p: PlayerV)
    requires
        server_wf(s),
        0 <= i < s.players.len(),
        p.id == s.players[i].id,
    ensures
        server_wf(with_player(s, i, p)),
{
    let t = with_player(s, i, p);
    assert forall|a: int, b: int|
        #![trigger t.players[a], t.players[b]]
        0 <= a < b < t.players.len() implies t.players[a].id
        != t.players[b].id by {
        assert(s.players[a].id != s.players[b].id);
    }
    assert forall|a: int| 0 <= a < t.players.len() implies #[trigger] t.players[a].id
        < t.next_id by {
        assert(s.players[a].id < s.next_id);
    }
}

proof fn lemma_wf_with_room(s: ServerV, i: int, r: RoomV)
    requires
        server_wf(s),
        0 <= i < s.rooms.len(),
        r.id == s.rooms[i].id,
        r.next_table_id >= s.rooms[i].next_table_id,
    ensures
        server_wf(with_room(s, i, r)),
{
    let t = with_room(s, i, r);
    assert forall|a: int, b: int|
        #![trigger t.rooms[a], t.rooms[b]]
        0 <= a < b < t.rooms.len() implies t.rooms[a].id
        != t.rooms[b].id by {
        assert(s.rooms[a].id != s.rooms[b].id);
    }
    assert forall|a: int| 0 <= a < t.rooms.len() implies #[trigger] t.rooms[a].id < t.next_id by {
        assert(s.rooms[a].id < s.next_id);
    }
    assert forall|k: int|
        #![trigger t.tables[k]]
        0 <= k < t.tables.len() implies exists|x: int|
        #![trigger t.rooms[x]]
        0 <= x < t.rooms.len() && t.rooms[x].id == t.tables[k].room_id && t.tables[k].id
            < t.rooms[x].next_table_id by {
        let x = choose|x: int|
            #![trigger s.rooms[x]]
            0 <= x < s.rooms.len() && s.rooms[x].id == s.tables[k].room_id && s.tables[k].id
                < s.rooms[x].next_table_id;
        assert(t.rooms[x].id == t.tables[k].room_id);
    }
}

proof fn lemma_wf_with_table(s: ServerV, i: int, tb: TableV)
    requires
        server_wf(s),
        0 <= i < s.tables.len(),
        tb.id == s.tables[i].id,
        tb.room_id == s.tables[i].room_id,
    ensures
        server_wf(with_table(s, i, tb)),
{
    let t = with_table(s, i, tb);
    assert forall|a: int, b: int|
        #![trigger t.tables[a], t.tables[b]]
        0 <= a < b < t.tables.len() implies !(t.tables[a].room_id
        == t.tables[b].room_id && t.tables[a].id == t.tables[b].id) by {
        assert(!(s.tables[a].room_id == s.tables[b].room_id && s.tables[a].id == s.tables[b].id));
    }
    assert forall|k: int|
        #![trigger t.tables[k]]
        0 <= k < t.tables.len() implies exists|x: int|
        #![trigger t.rooms[x]]
        0 <= x < t.rooms.len() && t.rooms[x].id == t.tables[k].room_id && t.tables[k].id
            < t.rooms[x].next_table_id by {
        let x = choose|x: int|
            #![trigger s.rooms[x]]
            0 <= x < s.rooms.len() && s.rooms[x].id == s.tables[k].room_id && s.tables[k].id
                < s.rooms[x].next_table_id;
        assert(t.rooms[x] == s.rooms[x]);
    }
}

proof fn lemma_wf_without_table(s: ServerV, i: int)
    requires
        server_wf(s),
        0 <= i < s.tables.len(),
    ensures
        server_wf(without_table(s, i)),
{
    let t = without_table(s, i);
    assert forall|a: int, b: int|
        #![trigger t.tables[a], t.tables[b]]
        0 <= a < b < t.tables.len() implies !(t.tables[a].room_id
        == t.tables[b].room_id && t.tables[a].id == t.tables[b].id) by {
        let a0 = if a < i {
            a
        } else {
            a + 1
        };
        let b0 = if b < i {
            b
        } else {
            b + 1
        };
        assert(t.tables[a] == s.tables[a0]);
        assert(t.tables[b] == s.tables[b0]);
        assert(!(s.tables[a0].room_id == s.tables[b0].room_id && s.tables[a0].id
            == s.tables[b0].id));
    }
    assert forall|k: int|
        #![trigger t.tables[k]]
        0 <= k < t.tables.len() implies exists|x: int|
        #![trigger t.rooms[x]]
        0 <= x < t.rooms.len() && t.rooms[x].id == t.tables[k].room_id && t.tables[k].id
            < t.rooms[x].next_table_id by {
        let k0 = if k < i {
            k
        } else {
            k + 1
        };
        assert(t.tables[k] == s.tables[k0]);
        let x = choose|x: int|
            #![trigger s.rooms[x]]
            0 <= x < s.rooms.len() && s.rooms[x].id == s.tables[k0].room_id && s.tables[k0].id
                < s.rooms[x].next_table_id;
        assert(t.rooms[x] == s.rooms[x]);
    }
}

/// No two tables of `ts` share both room and number.
pub open spec fn unique_tables(ts: Seq<TableV>) -> bool {
    forall|i: int, j: int|
        #![trigger ts[i], ts[j]]
        0 <= i < j < ts.len() ==> !(ts[i].room_id == ts[j].room_id && ts[i].id == ts[j].id)
}

proof fn lemma_outside(ts: Seq<TableV>, rid: u32)
    ensures
        forall|k: int|
            #![trigger tables_outside(ts, rid)[k]]
            0 <= k < tables_outside(ts, rid).len() ==> tables_outside(ts, rid)[k].room_id != rid
                && exists|j: int| 0 <= j < ts.len() && #[trigger] ts[j] == tables_outside(ts, rid)[k],
        unique_tables(ts) ==> unique_tables(tables_outside(ts, rid)),
    decreases ts.len(),
{
    if ts.len() > 0 {
        let d = ts.drop_last();
        lemma_outside(d, rid);
        let od = tables_outside(d, rid);
        let o = tables_outside(ts, rid);
        assert forall|k: int|
            #![trigger o[k]]
            0 <= k < o.len() implies o[k].room_id != rid && exists|j: int|
                0 <= j < ts.len() && #[trigger] ts[j] == o[k] by {
            if k < od.len() {
                assert(o[k] == od[k]);
                let j = choose|j: int| 0 <= j < d.len() && #[trigger] d[j] == od[k];
                assert(ts[j] == d[j]);
            } else {
                assert(o[k] == ts.last());
                assert(ts[ts.len() - 1] == o[k]);
            }
        }
        if unique_tables(ts) {
            assert(unique_tables(d)) by {
                assert forall|i: int, j: int|
                    #![trigger d[i], d[j]]
                    0 <= i < j < d.len() implies !(d[i].room_id == d[j].room_id && d[i].id
                        == d[j].id) by {
                    assert(d[i] == ts[i] && d[j] == ts[j]);
                }
            }
            assert forall|a: int, b: int|
                #![trigger o[a], o[b]]
                0 <= a < b < o.len() implies !(o[a].room_id == o[b].room_id && o[a].id
                    == o[b].id) by {
                if b < od.len() {
                    assert(o[a] == od[a] && o[b] == od[b]);
                } else {
                    assert(o[a] == od[a]);
                    assert(o[b] == ts.last());
                    let j = choose|j: int| 0 <= j < d.len() && #[trigger] d[j] == od[a];
                    assert(ts[j] == d[j]);
                    assert(ts[ts.len() - 1] == ts.last());
                }
            }
        }
    }
}

proof fn lemma_wf_without_room(s: ServerV, i: int)
    requires
        server_wf(s),
        0 <= i < s.rooms.len(),
    ensures
        server_wf(without_room(s, i)),
{
    let t = without_room(s, i);
    let rid = s.rooms[i].id;
    lemma_outside(s.tables, rid);
    assert(unique_tables(s.tables));
    assert forall|a: int, b: int|
        #![trigger t.rooms[a], t.rooms[b]]
        0 <= a < b < t.rooms.len() implies t.rooms[a].id != t.rooms[b].id by {
        let a0 = if a < i {
            a
        } else {
            a + 1
        };
        let b0 = if b < i {
            b
        } else {
            b + 1
        };
        assert(t.rooms[a] == s.rooms[a0] && t.rooms[b] == s.rooms[b0]);
        assert(s.rooms[a0].id != s.rooms[b0].id);
    }
    assert forall|a: int| 0 <= a < t.rooms.len() implies #[trigger] t.rooms[a].id < t.next_id by {
        let a0 = if a < i {
            a
        } else {
            a + 1
        };
        assert(t.rooms[a] == s.rooms[a0]);
    }
    assert(unique_tables(t.tables));
    assert forall|k: int|
        #![trigger t.tables[k]]
        0 <= k < t.tables.len() implies exists|x: int|
            #![trigger t.rooms[x]]
            0 <= x < t.rooms.len() && t.rooms[x].id == t.tables[k].room_id && t.tables[k].id
                < t.rooms[x].next_table_id by {
        let j = choose|j: int| 0 <= j < s.tables.len() && #[trigger] s.tables[j] == t.tables[k];
        assert(t.tables[k].room_id != rid);
        let x = choose|x: int|
            #![trigger s.rooms[x]]
            0 <= x < s.rooms.len() && s.rooms[x].id == s.tables[j].room_id && s.tables[j].id
                < s.rooms[x].next_table_id;
        assert(x != i);
        let x1 = if x < i {
            x
        } else {
            x - 1
        };
        assert(t.rooms[x1] == s.rooms[x]);
    }
}

proof fn lemma_wf_drop_player(s: ServerV, i: int)
    requires
        server_wf(s),
        0 <= i < s.players.len(),
    ensures
        server_wf(ServerV { players: s.players.remove(i), ..s }),
{
    let t = ServerV { players: s.players.remove(i), ..s };
    assert forall|a: int, b: int|
        #![trigger t.players[a], t.players[b]]
        0 <= a < b < t.players.len() implies t.players[a].id != t.players[b].id by {
        let a0 = if a < i {
            a
        } else {
            a + 1
        };
        let b0 = if b < i {
            b
        } else {
            b + 1
        };
        assert(t.players[a] == s.players[a0] && t.players[b] == s.players[b0]);
        assert(s.players[a0].id != s.players[b0].id);
    }
    assert forall|a: int| 0 <= a < t.players.len() implies #[trigger] t.players[a].id
        < t.next_id by {
        let a0 = if a < i {
            a
        } else {
            a + 1
        };
        assert(t.players[a] == s.players[a0]);
    }
}

proof fn lemma_wf_end_game(s: ServerV, rid: u32, tid: u32)
    requires
        server_wf(s),
    ensures
        server_wf(end_game(s, rid, tid).0),
{
    lemma_table_from(s.tables, rid, tid, 0);
    let ti = table_idx(s, rid, tid);
    if room_idx(s, rid) >= 0 && ti >= 0 {
        lemma_wf_with_table(
            s,
            ti,
            TableV { game_active: false, position: start_position(), ..s.tables[ti] },
        );
    }
}

proof fn lemma_wf_leave_table(s: ServerV, pid: u32)
    requires
        server_wf(s),
    ensures
        server_wf(leave_table(s, pid).0),
        same_ids(s.players, leave_table(s, pid).0.players),
{
    lemma_player_from(s.players, pid, 0);
    match loc_of(s, pid) {
        None => {},
        Some((rid, tid)) => {
            let pi = player_idx(s, pid);
            let s1 = with_player(s, pi, PlayerV { table_id: None, ..s.players[pi] });
            lemma_wf_with_player(s, pi, PlayerV { table_id: None, ..s.players[pi] });
            lemma_table_from(s1.tables, rid, tid, 0);
            let ti = table_idx(s1, rid, tid);
            if room_idx(s1, rid) >= 0 && ti >= 0 {
                let t = s1.tables[ti];
                let white = seat_after(t.white, pid);
                let black = seat_after(t.black, pid);
                let ended = t.game_active && (white is None || black is None);
                let t2 = TableV {
                    white,
                    black,
                    spectators: without_id(t.spectators, pid),
                    game_active: if ended {
                        false
                    } else {
                        t.game_active
                    },
                    ..t
                };
                lemma_wf_with_table(s1, ti, t2);
                let s2 = with_table(s1, ti, t2);
                if white is None && black is None && t2.spectators.len() == 0 {
                    lemma_wf_without_table(s2, ti);
                }
            }
        },
    }
}

proof fn lemma_wf_leave_room(s: ServerV, pid: u32)
    requires
        server_wf(s),
    ensures
        server_wf(leave_room(s, pid).0),
        same_ids(s.players, leave_room(s, pid).0.players),
{
    lemma_wf_leave_table(s, pid);
    let s1 = leave_table(s, pid).0;
    lemma_player_from(s1.players, pid, 0);
    match room_of(s1, pid) {
        None => {},
        Some(rid) => {
            lemma_room_from(s1.rooms, rid, 0);
            let ri = room_idx(s1, rid);
            let s2 = if ri >= 0 {
                lemma_wf_with_room(
                    s1,
                    ri,
                    RoomV { player_ids: without_id(s1.rooms[ri].player_ids, pid), ..s1.rooms[ri] },
                );
                with_room(
                    s1,
                    ri,
                    RoomV { player_ids: without_id(s1.rooms[ri].player_ids, pid), ..s1.rooms[ri] },
                )
            } else {
                s1
            };
            let pi = player_idx(s2, pid);
            lemma_wf_with_player(s2, pi, PlayerV { room_id: None, ..s2.players[pi] });
            let s3 = with_player(s2, pi, PlayerV { room_id: None, ..s2.players[pi] });
            if ri >= 0 && s3.rooms[ri].player_ids.len() == 0 {
                lemma_wf_without_room(s3, ri);
            }
        },
    }
}

/// A connecting client gets an id that no player has, and the server's
/// records stay consistent.
pub proof fn law_connect_keeps_wf(s: ServerV)
    requires
        server_wf(s),
        s.next_id < u32::MAX,
    ensures
        server_wf(connect(s).0),
        forall|i: int| 0 <= i < s.players.len() ==> #[trigger] s.players[i].id != s.next_id,
{
    let t = connect(s).0;
    assert forall|a: int, b: int|
        #![trigger t.players[a], t.players[b]]
        0 <= a < b < t.players.len() implies t.players[a].id != t.players[b].id by {
        assert(t.players[a] == s.players[a]);
        if b < s.players.len() {
            assert(t.players[b] == s.players[b]);
        }
    }
    assert forall|a: int| 0 <= a < t.players.len() implies #[trigger] t.players[a].id
        < t.next_id by {
        if a < s.players.len() {
            assert(t.players[a] == s.players[a]);
        }
    }
    assert forall|a: int| 0 <= a < t.rooms.len() implies #[trigger] t.rooms[a].id < t.next_id by {
        assert(s.rooms[a].id < s.next_id);
    }
}

/// Dropping a player keeps the server's records consistent.
pub proof fn law_disconnect_keeps_wf(s: ServerV, pid: u32)
    requires
        server_wf(s),
    ensures
        server_wf(disconnect(s, pid).0),
{
    lemma_wf_leave_room(s, pid);
    let s1 = leave_room(s, pid).0;
    lemma_player_from(s1.players, pid, 0);
    let pi = player_idx(s1, pid);
    if pi >= 0 {
        lemma_wf_drop_player(s1, pi);
    }
}

/// A new server's records are consistent.
pub proof fn law_new_server_wf()
    ensures
        server_wf(ServerV { next_id: 1, players: seq![], rooms: seq![], tables: seq![] }),
{
}

proof fn lemma_wf_create_room(s: ServerV, pid: u32, name: Seq<char>)
    requires
        server_wf(s),
        s.next_id < u32::MAX,
        player_idx(s, pid) >= 0,
    ensures
        server_wf(create_room(s, pid, name).0),
{
    let rid = s.next_id;
    let room = RoomV {
        id: rid,
        name,
        moderator: pid,
        player_ids: seq![pid],
        next_table_id: 1,
        main_board_mode: BoardMode::Tutorial,
        main_board_pos: start_position(),
    };
    let s1 = ServerV { next_id: (rid + 1) as u32, rooms: s.rooms.push(room), ..s };
    assert forall|a: int, b: int|
        #![trigger s1.rooms[a], s1.rooms[b]]
        0 <= a < b < s1.rooms.len() implies s1.rooms[a].id != s1.rooms[b].id by {
        assert(s1.rooms[a] == s.rooms[a]);
        assert(s.rooms[a].id < s.next_id);
        if b < s.rooms.len() {
            assert(s1.rooms[b] == s.rooms[b]);
        }
    }
    assert forall|a: int| 0 <= a < s1.rooms.len() implies #[trigger] s1.rooms[a].id
        < s1.next_id by {
        if a < s.rooms.len() {
            assert(s1.rooms[a] == s.rooms[a]);
        }
    }
    assert forall|a: int| 0 <= a < s1.players.len() implies #[trigger] s1.players[a].id
        < s1.next_id by {
        assert(s.players[a].id < s.next_id);
    }
    assert forall|k: int|
        #![trigger s1.tables[k]]
        0 <= k < s1.tables.len() implies exists|x: int|
            #![trigger s1.rooms[x]]
            0 <= x < s1.rooms.len() && s1.rooms[x].id == s1.tables[k].room_id && s1.tables[k].id
                < s1.rooms[x].next_table_id by {
        let x = choose|x: int|
            #![trigger s.rooms[x]]
            0 <= x < s.rooms.len() && s.rooms[x].id == s.tables[k].room_id && s.tables[k].id
                < s.rooms[x].next_table_id;
        assert(s1.rooms[x] == s.rooms[x]);
    }
    assert(server_wf(s1));
    lemma_player_from(s.players, pid, 0);
    let pi = player_idx(s1, pid);
    lemma_wf_with_player(s1, pi, PlayerV { room_id: Some(rid), ..s1.players[pi] });
}

proof fn lemma_wf_join_room(s: ServerV, pid: u32, room_id: u32)
    requires
        server_wf(s),
        player_idx(s, pid) >= 0,
    ensures
        server_wf(join_room(s, pid, room_id).0),
{
    lemma_wf_leave_room(s, pid);
    let s1 = leave_room(s, pid).0;
    lemma_room_from(s1.rooms, room_id, 0);
    let ri = room_idx(s1, room_id);
    if ri >= 0 {
        let r2 = RoomV { player_ids: s1.rooms[ri].player_ids.push(pid), ..s1.rooms[ri] };
        lemma_wf_with_room(s1, ri, r2);
        let s2 = with_room(s1, ri, r2);
        lemma_same_ids(s.players, s1.players, pid, 0);
        lemma_player_from(s2.players, pid, 0);
        let pi = player_idx(s2, pid);
        lemma_wf_with_player(s2, pi, PlayerV { room_id: Some(room_id), ..s2.players[pi] });
    }
}

proof fn lemma_wf_create_table(s: ServerV, pid: u32, time_control: TimeControl)
    requires
        server_wf(s),
        table_ids_left(s, pid),
    ensures
        server_wf(create_table(s, pid, time_control).0),
{
    match room_of(s, pid) {
        None => {},
        Some(rid) => {
            lemma_room_from(s.rooms, rid, 0);
            let ri = room_idx(s, rid);
            if ri >= 0 {
                let tid = s.rooms[ri].next_table_id;
                let r1 = RoomV { next_table_id: (tid + 1) as u32, ..s.rooms[ri] };
                lemma_wf_with_room(s, ri, r1);
                let s1 = with_room(s, ri, r1);
                let t = TableV {
                    id: tid,
                    room_id: rid,
                    white: Some(pid),
                    black: None,
                    spectators: seq![],
                    position: start_position(),
                    game_active: false,
                    time_control,
                };
                let s2 = ServerV { tables: s1.tables.push(t), ..s1 };
                assert forall|a: int, b: int|
                    #![trigger s2.tables[a], s2.tables[b]]
                    0 <= a < b < s2.tables.len() implies !(s2.tables[a].room_id
                        == s2.tables[b].room_id && s2.tables[a].id == s2.tables[b].id) by {
                    assert(s2.tables[a] == s1.tables[a]);
                    if b < s1.tables.len() {
                        assert(s2.tables[b] == s1.tables[b]);
                    } else {
                        assert(s2.tables[b] == t);
                        if s1.tables[a].room_id == rid {
                            let x = choose|x: int|
                                #![trigger s.rooms[x]]
                                0 <= x < s.rooms.len() && s.rooms[x].id == s.tables[a].room_id
                                    && s.tables[a].id < s.rooms[x].next_table_id;
                            if x != ri {
                                if x < ri {
                                    assert(s.rooms[x].id != s.rooms[ri].id);
                                } else {
                                    assert(s.rooms[ri].id != s.rooms[x].id);
                                }
                            }
                        }
                    }
                }
                assert forall|k: int|
                    #![trigger s2.tables[k]]
                    0 <= k < s2.tables.len() implies exists|x: int|
                        #![trigger s2.rooms[x]]
                        0 <= x < s2.rooms.len() && s2.rooms[x].id == s2.tables[k].room_id
                            && s2.tables[k].id < s2.rooms[x].next_table_id by {
                    if k < s1.tables.len() {
                        assert(s2.tables[k] == s1.tables[k]);
                        let x = choose|x: int|
                            #![trigger s1.rooms[x]]
                            0 <= x < s1.rooms.len() && s1.rooms[x].id == s1.tables[k].room_id
                                && s1.tables[k].id < s1.rooms[x].next_table_id;
                        assert(s2.rooms[x] == s1.rooms[x]);
                    } else {
                        assert(s2.tables[k] == t);
                        assert(s2.rooms[ri] == r1);
                    }
                }
                assert(server_wf(s2));
                lemma_player_from(s.players, pid, 0);
                let pi = player_idx(s2, pid);
                lemma_wf_with_player(s2, pi, PlayerV { table_id: Some(tid), ..s2.players[pi] });
            }
        },
    }
}

proof fn lemma_wf_join_table(s: ServerV, pid: u32, table_id: u32)
    requires
        server_wf(s),
    ensures
        server_wf(join_table(s, pid, table_id).0),
{
    match room_of(s, pid) {
        None => {},
        Some(rid) => {
            lemma_wf_leave_table(s, pid);
            let s1 = leave_table(s, pid).0;
            lemma_table_from(s1.tables, rid, table_id, 0);
            let ti = table_idx(s1, rid, table_id);
            if room_idx(s1, rid) >= 0 && ti >= 0 {
                let t2 = seated(s1.tables[ti], pid);
                lemma_wf_with_table(s1, ti, t2);
                let s2 = with_table(s1, ti, t2);
                lemma_player_from(s2.players, pid, 0);
                let pi = player_idx(s2, pid);
                let s3 = if pi >= 0 {
                    lemma_wf_with_player(s2, pi, PlayerV { table_id: Some(table_id), ..s2.players[pi] });
                    with_player(s2, pi, PlayerV { table_id: Some(table_id), ..s2.players[pi] })
                } else {
                    s2
                };
                lemma_wf_with_table(s3, ti, TableV { game_active: true, position: start_position(), ..t2 });
            }
        },
    }
}

proof fn lemma_wf_make_move(s: ServerV, pid: u32, uci: Seq<char>)
    requires
        server_wf(s),
    ensures
        server_wf(make_move(s, pid, uci).0),
{
    match loc_of(s, pid) {
        None => {},
        Some((rid, tid)) => {
            lemma_table_from(s.tables, rid, tid, 0);
            let ti = table_idx(s, rid, tid);
            if room_idx(s, rid) >= 0 && ti >= 0 {
                let t = s.tables[ti];
                match spec_from_uci(encode_utf8(uci)) {
                    Some(mv) => {
                        let pos = spec_make_move(t.position, mv);
                        lemma_wf_with_table(s, ti, TableV { position: pos, ..t });
                        lemma_wf_end_game(with_table(s, ti, TableV { position: pos, ..t }), rid, tid);
                    },
                    None => {},
                }
            }
        },
    }
}

proof fn lemma_wf_rematch(s: ServerV, pid: u32)
    requires
        server_wf(s),
    ensures
        server_wf(rematch(s, pid).0),
{
    match loc_of(s, pid) {
        None => {},
        Some((rid, tid)) => {
            lemma_table_from(s.tables, rid, tid, 0);
            let ti = table_idx(s, rid, tid);
            if ti >= 0 {
                let t = s.tables[ti];
                lemma_wf_with_table(
                    s,
                    ti,
                    TableV {
                        white: t.black,
                        black: t.white,
                        game_active: true,
                        position: start_position(),
                        ..t
                    },
                );
            }
        },
    }
}

/// Every answered message keeps the server's records consistent.
pub proof fn law_handle_keeps_wf(s: ServerV, pid: u32, msg: ClientMsgV)
    requires
        server_wf(s),
        can_handle(s, pid, msg),
    ensures
        server_wf(handle(s, pid, msg).0),
{
    lemma_player_from(s.players, pid, 0);
    match msg {
        ClientMsgV::SetName { name } => {
            let pi = player_idx(s, pid);
            if pi >= 0 {
                lemma_wf_with_player(s, pi, PlayerV { name, ..s.players[pi] });
            }
        },
        ClientMsgV::ListRooms => {},
        ClientMsgV::CreateRoom { name } => lemma_wf_create_room(s, pid, name),
        ClientMsgV::JoinRoom { room_id } => lemma_wf_join_room(s, pid, room_id),
        ClientMsgV::LeaveRoom => lemma_wf_leave_room(s, pid),
        ClientMsgV::CreateTable { time_control } => lemma_wf_create_table(s, pid, time_control),
        ClientMsgV::JoinTable { table_id } => lemma_wf_join_table(s, pid, table_id),
        ClientMsgV::LeaveTable => lemma_wf_leave_table(s, pid),
        ClientMsgV::MakeMove { uci } => lemma_wf_make_move(s, pid, uci),
        ClientMsgV::Resign => {
            match loc_of(s, pid) {
                Some((rid, tid)) => lemma_wf_end_game(s, rid, tid),
                None => {},
            }
        },
        ClientMsgV::Rematch => lemma_wf_rematch(s, pid),
        ClientMsgV::SetMainBoardMode { mode } => {
            match room_of(s, pid) {
                Some(rid) => {
                    lemma_room_from(s.rooms, rid, 0);
                    let ri = room_idx(s, rid);
                    if ri >= 0 {
                        lemma_wf_with_room(
                            s,
                            ri,
                            RoomV { main_board_mode: mode, main_board_pos: start_position(), ..s.rooms[ri] },
                        );
                    }
                },
                None => {},
            }
        },
        ClientMsgV::MainBoardMove { uci } => {
            match room_of(s, pid) {
                Some(rid) => {
                    lemma_room_from(s.rooms, rid, 0);
                    let ri = room_idx(s, rid);
                    if ri >= 0 {
                        match spec_from_uci(encode_utf8(uci)) {
                            Some(mv) => {
                                let r = s.rooms[ri];
                                lemma_wf_with_room(
                                    s,
                                    ri,
                                    RoomV { main_board_pos: spec_make_move(r.main_board_pos, mv), ..r },
                                );
                            },
                            None => {},
                        }
                    }
                },
                None => {},
            }
        },
        ClientMsgV::SendChat { body } => {},
    }
}

} // verus!
