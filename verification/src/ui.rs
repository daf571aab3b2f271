//! What the screens show: piece drawings, how squares are shaded, and the
//! lines of the lobby lists and the chat.
use vstd::prelude::*;

use crate::board::{BISHOP, KING, KNIGHT, PAWN, QUEEN, ROOK};
use crate::canvas::PieceGrid;
use crate::protocol::{PlayerInfo, PlayerInfoV, PlayerStatus, PlayerRef, RoomInfo, RoomInfoV, TableInfo, TableInfoV};
use crate::text::{append_str, decimal_of, push_char, push_decimal};

verus! {

/// Outlined piece art, 3 rows tall and 7 characters wide (one board square),
/// drawn with box-drawing and line characters; blank for an unknown piece type.
pub fn piece_art(piece_type: usize) -> (art: [&'static str; 3])
    ensures
        piece_type == KING ==> art@ == seq!["  ╺+╸  ", " ╭─┼─╮ ", " ╰───╯ "],
        piece_type == QUEEN ==> art@ == seq![" ╺╲│╱╸ ", "  ╰▽╯  ", " ╰───╯ "],
        piece_type == ROOK ==> art@ == seq![" ┌┐ ┌┐ ", " │▐▌ │ ", " └───┘ "],
        piece_type == BISHOP ==> art@ == seq!["   ╱╲  ", "  ╱◌╲  ", " ╰───╯ "],
        piece_type == KNIGHT ==> art@ == seq!["  ╱▔▔╲ ", " ▕█▎ │ ", " ╰───╯ "],
        piece_type == PAWN ==> art@ == seq!["  ╭─╮  ", "  ╰─╯  ", " ╰───╯ "],
        piece_type > KING ==> art@ == seq!["       ", "       ", "       "],
        forall|r: int| 0 <= r < 3 ==> (#[trigger] art@[r])@.len() == 7,
{
    let art = match piece_type {
        KING => ["  ╺+╸  ", " ╭─┼─╮ ", " ╰───╯ "],
        QUEEN => [" ╺╲│╱╸ ", "  ╰▽╯  ", " ╰───╯ "],
        ROOK => [" ┌┐ ┌┐ ", " │▐▌ │ ", " └───┘ "],
        BISHOP => ["   ╱╲  ", "  ╱◌╲  ", " ╰───╯ "],
        KNIGHT => ["  ╱▔▔╲ ", " ▕█▎ │ ", " ╰───╯ "],
        PAWN => ["  ╭─╮  ", "  ╰─╯  ", " ╰───╯ "],
        _ => ["       ", "       ", "       "],
    };
    proof {
        reveal_strlit("       ");
        reveal_strlit("   ╱╲  ");
        reveal_strlit("  ╭─╮  ");
        reveal_strlit("  ╰─╯  ");
        reveal_strlit("  ╰▽╯  ");
        reveal_strlit("  ╱▔▔╲ ");
        reveal_strlit("  ╱◌╲  ");
        reveal_strlit("  ╺+╸  ");
        reveal_strlit(" │▐▌ │ ");
        reveal_strlit(" ┌┐ ┌┐ ");
        reveal_strlit(" └───┘ ");
        reveal_strlit(" ╭─┼─╮ ");
        reveal_strlit(" ╰───╯ ");
        reveal_strlit(" ╺╲│╱╸ ");
        reveal_strlit(" ▕█▎ │ ");
    }
    assert(art@ =~= seq![art[0], art[1], art[2]]);
    art
}

/// The name of a piece type, for the info panel; "?" for an unknown type.
pub fn piece_name(piece_type: usize) -> (name: &'static str)
    ensures
        name == (if piece_type == PAWN {
            "Pawn"
        } else if piece_type == KNIGHT {
            "Knight"
        } else if piece_type == BISHOP {
            "Bishop"
        } else if piece_type == ROOK {
            "Rook"
        } else if piece_type == QUEEN {
            "Queen"
        } else if piece_type == KING {
            "King"
        } else {
            "?"
        }),
{
    match piece_type {
        PAWN => "Pawn",
        KNIGHT => "Knight",
        BISHOP => "Bishop",
        ROOK => "Rook",
        QUEEN => "Queen",
        KING => "King",
        _ => "?",
    }
}

// ── The board ──────────────────────────────────────────────────────

/// How a board square is coloured, most important first: the cursor, the
/// selected piece, a highlighted target, then the light or dark square.
#[derive(Clone, Copy, Debug, PartialEq, Eq, Structural)]
pub enum Shade {
    Cursor,
    Selected,
    Highlight,
    Light,
    Dark,
}

/// The shade of square `sq` (rank times eight plus file; a1 is dark).
pub open spec fn spec_shade(sq: u8, cursor: u8, selected: Option<u8>, highlights: Seq<u8>) -> Shade {
    if sq == cursor {
        Shade::Cursor
    } else if selected == Some(sq) {
        Shade::Selected
    } else if highlights.contains(sq) {
        Shade::Highlight
    } else if (sq / 8 + sq % 8) % 2 == 1 {
        Shade::Light
    } else {
        Shade::Dark
    }
}

pub fn square_shade(sq: u8, cursor: u8, selected: Option<u8>, highlights: &[u8]) -> (sh: Shade)
    ensures
        sh == spec_shade(sq, cursor, selected, highlights@),
{
    if sq == cursor {
        return Shade::Cursor;
    }
    if selected == Some(sq) {
        return Shade::Selected;
    }
    let mut i: usize = 0;
    while i < highlights.len()
        invariant
            i <= highlights.len(),
            sq != cursor,
            selected != Some(sq),
            forall|k: int| 0 <= k < i ==> highlights@[k] != sq,
        decreases highlights.len() - i,
    {
        if highlights[i] == sq {
            assert(highlights@[i as int] == sq);
            assert(highlights@.contains(sq));
            return Shade::Highlight;
        }
        i += 1;
    }
    if (sq / 8 + sq % 8) % 2 == 1 {
        Shade::Light
    } else {
        Shade::Dark
    }
}

/// Whether cell (`row`, `col`) of a custom design is blank.
pub open spec fn blank_at(g: PieceGrid, row: int, col: int) -> bool {
    0 <= row < 3 && 0 <= col < 7 && g[row][col] == ' '
}

/// Whether cell (`row`, `col`) is drawn: on the grid and not blank.
pub open spec fn drawn_at(g: PieceGrid, row: int, col: int) -> bool {
    0 <= row < 3 && 0 <= col < 7 && g[row][col] != ' '
}

/// Whether a blank cell of a custom design gets a halo: one of the cells
/// above, below, left or right of it is drawn.
pub open spec fn spec_halo(g: PieceGrid, row: int, col: int) -> bool {
    blank_at(g, row, col) && (drawn_at(g, row - 1, col) || drawn_at(g, row + 1, col) || drawn_at(
        g,
        row,
        col - 1,
    ) || drawn_at(g, row, col + 1))
}

pub fn halo(g: &PieceGrid, row: usize, col: usize) -> (r: bool)
    requires
        row < 3,
        col < 7,
    ensures
        r == spec_halo(*g, row as int, col as int),
{
    if g[row][col] != ' ' {
        return false;
    }
    (row > 0 && g[row - 1][col] != ' ') || (row < 2 && g[row + 1][col] != ' ') || (col > 0
        && g[row][col - 1] != ' ') || (col < 6 && g[row][col + 1] != ' ')
}

/// The square's name, file letter then rank digit, as the info panel shows it.
pub open spec fn spec_square_label(sq: u8) -> Seq<char> {
    seq![((sq % 8) + 97) as char, ((sq / 8) + 49) as char]
}

pub fn square_label(sq: u8) -> (s: String)
    requires
        sq < 64,
    ensures
        s@ == spec_square_label(sq),
{
    let mut s = String::new();
    push_char(&mut s, ((sq % 8) + 97) as char);
    push_char(&mut s, ((sq / 8) + 49) as char);
    s
}

// ── Scrolling ──────────────────────────────────────────────────────

/// How many of `count` chat lines to pass over so that the last `visible`
/// show.
pub fn chat_skip(count: usize, visible: usize) -> (skip: usize)
    ensures
        skip == if count > visible {
            count - visible
        } else {
            0
        },
{
    if count > visible {
        count - visible
    } else {
        0
    }
}

/// The first palette row to show so that the row of shape `current` is on
/// screen, with `per_row` shapes to a row and `rows` rows showing.
pub fn palette_scroll(current: usize, per_row: usize, rows: usize) -> (first: usize)
    requires
        per_row > 0,
        current < usize::MAX,
    ensures
        first == if current / per_row >= rows {
            (current / per_row - rows + 1) as int
        } else {
            0
        },
{
    let row = current / per_row;
    assert(row <= current) by (nonlinear_arith)
        requires
            per_row > 0,
            row == current / per_row,
    ;
    if row >= rows {
        row - rows + 1
    } else {
        0
    }
}

// ── Lobby lines ────────────────────────────────────────────────────

/// The marker before a list entry: an arrow when it is selected.
pub open spec fn marker(selected: bool) -> Seq<char> {
    if selected {
        " > "@
    } else {
        "   "@
    }
}

/// A room in the room list: its name, how many players and tables it has,
/// and its games when there are any.
pub open spec fn spec_room_line(r: RoomInfoV, selected: bool) -> Seq<char> {
    marker(selected) + r.name + " ("@ + decimal_of(r.player_count as nat) + " players, "@
        + decimal_of(r.table_count as nat) + " tables)"@ + if r.active_games > 0 {
        " ["@ + decimal_of(r.active_games as nat) + " game(s)]"@
    } else {
        seq![]
    }
}

/// The name of a seat, or "(open)" when nobody sits there.
pub open spec fn seat_name(p: Option<crate::protocol::PlayerRefV>) -> Seq<char> {
    match p {
        Some(x) => x.name,
        None => "(open)"@,
    }
}

/// Whether a table has a game, players waiting, or nobody.
pub open spec fn table_status(t: TableInfoV) -> Seq<char> {
    if t.has_game {
        "playing"@
    } else if t.white is Some || t.black is Some {
        "waiting"@
    } else {
        "empty"@
    }
}

/// A table in the lobby: its number, the two seats, its status and its
/// spectators when there are any.
pub open spec fn spec_table_line(t: TableInfoV, selected: bool) -> Seq<char> {
    marker(selected) + "Table "@ + decimal_of(t.id as nat) + ": "@ + seat_name(t.white) + " vs "@
        + seat_name(t.black) + " ["@ + table_status(t) + "]"@ + if t.spectator_count > 0 {
        " +"@ + decimal_of(t.spectator_count as nat) + " watching"@
    } else {
        seq![]
    }
}

/// A player in the lobby, marked when it is the user, with what it is doing.
pub open spec fn spec_player_line(p: PlayerInfoV, my_id: Option<u32>) -> Seq<char> {
    "   "@ + p.name + (if my_id == Some(p.id) {
        " (you)"@
    } else {
        seq![]
    }) + match p.status {
        PlayerStatus::Idle => seq![],
        PlayerStatus::Playing => " [playing]"@,
        PlayerStatus::Spectating => " [watching]"@,
    }
}

/// A chat line: the sender before the body, or the body alone when there is
/// no sender (a notice from the server).
pub open spec fn spec_chat_line(sender: Seq<char>, body: Seq<char>) -> Seq<char> {
    if sender.len() == 0 {
        "  "@ + body
    } else {
        "  "@ + sender + ": "@ + body
    }
}

fn push_marker(s: &mut String, selected: bool)
    ensures
        final(s)@ == old(s)@ + marker(selected),
{
    if selected {
        append_str(s, " > ");
    } else {
        append_str(s, "   ");
    }
}

fn push_seat(s: &mut String, p: &Option<PlayerRef>)
    ensures
        final(s)@ == old(s)@ + seat_name(crate::protocol::ref_view(*p)),
{
    match p {
        Some(x) => append_str(s, x.name.as_str()),
        None => append_str(s, "(open)"),
    }
}

pub fn room_line(r: &RoomInfo, selected: bool) -> (s: String)
    ensures
        s@ == spec_room_line(r@, selected),
{
    let mut s = String::new();
    push_marker(&mut s, selected);
    append_str(&mut s, r.name.as_str());
    append_str(&mut s, " (");
    push_decimal(&mut s, r.player_count as u64);
    append_str(&mut s, " players, ");
    push_decimal(&mut s, r.table_count as u64);
    append_str(&mut s, " tables)");
    if r.active_games > 0 {
        append_str(&mut s, " [");
        push_decimal(&mut s, r.active_games as u64);
        append_str(&mut s, " game(s)]");
    }
    s
}

pub fn table_line(t: &TableInfo, selected: bool) -> (s: String)
    ensures
        s@ == spec_table_line(t@, selected),
{
    let mut s = String::new();
    push_marker(&mut s, selected);
    append_str(&mut s, "Table ");
    push_decimal(&mut s, t.id as u64);
    append_str(&mut s, ": ");
    push_seat(&mut s, &t.white);
    append_str(&mut s, " vs ");
    push_seat(&mut s, &t.black);
    append_str(&mut s, " [");
    if t.has_game {
        append_str(&mut s, "playing");
    } else if t.white.is_some() || t.black.is_some() {
        append_str(&mut s, "waiting");
    } else {
        append_str(&mut s, "empty");
    }
    append_str(&mut s, "]");
    if t.spectator_count > 0 {
        append_str(&mut s, " +");
        push_decimal(&mut s, t.spectator_count as u64);
        append_str(&mut s, " watching");
    }
    s
}

pub fn player_line(p: &PlayerInfo, my_id: Option<u32>) -> (s: String)
    ensures
        s@ == spec_player_line(p@, my_id),
{
    let mut s = String::new();
    append_str(&mut s, "   ");
    append_str(&mut s, p.name.as_str());
    if my_id == Some(p.id) {
        append_str(&mut s, " (you)");
    }
    match p.status {
        PlayerStatus::Idle => {},
        PlayerStatus::Playing => append_str(&mut s, " [playing]"),
        PlayerStatus::Spectating => append_str(&mut s, " [watching]"),
    }
    s
}

pub fn chat_line(sender: &str, body: &str) -> (s: String)
    ensures
        s@ == spec_chat_line(sender@, body@),
{
    let mut s = String::new();
    append_str(&mut s, "  ");
    if !sender.is_empty() {
        append_str(&mut s, sender);
        append_str(&mut s, ": ");
    }
    append_str(&mut s, body);
    s
}

} // verus!
