//! The game server's state machine: rooms, game tables, moves and chat.
//! The server decides; the caller delivers the messages it returns.
use vstd::prelude::*;

use crate::bits::sq_in;
use crate::board::{
    file_of, rank_of, spec_piece_at, Color, Position, BISHOP, KING, KNIGHT, PAWN, QUEEN, ROOK,
};
use crate::protocol::{
    rooms_view, tables_view, players_view, BoardMode, ChatKind, ClientMsg, PlayerInfo, PlayerInfoV,
    PlayerRef, PlayerRefV, PlayerStatus, RoomInfo, RoomInfoV, ServerMsg, ServerMsgV, TableInfo,
    TableInfoV, TimeControl,
};
use crate::text::push_char;

verus! {

// ── FEN output ─────────────────────────────────────────────────────

/// The FEN letter of a piece: upper case for White, lower case for Black.
pub open spec fn piece_letter(pt: usize, c: Color) -> char {
    let l = if pt == PAWN {
        'p'
    } else if pt == KNIGHT {
        'n'
    } else if pt == BISHOP {
        'b'
    } else if pt == ROOK {
        'r'
    } else if pt == QUEEN {
        'q'
    } else if pt == KING {
        'k'
    } else {
        '?'
    };
    if pt < 6 && c == Color::White {
        ((l as int) - 32) as char
    } else {
        l
    }
}

pub open spec fn digit_char(n: int) -> char {
    (n + 48) as char
}

/// The FEN of one rank from file `file` on, `empty` empty squares already counted.
pub open spec fn fen_rank_from(p: Position, rank: int, file: int, empty: int) -> Seq<char>
    decreases 8 - file,
{
    if file >= 8 || file < 0 {
        if empty > 0 {
            seq![digit_char(empty)]
        } else {
            seq![]
        }
    } else {
        match spec_piece_at(p, rank * 8 + file) {
            Some((pt, c)) => (if empty > 0 {
                seq![digit_char(empty)]
            } else {
                seq![]
            }) + seq![piece_letter(pt, c)] + fen_rank_from(p, rank, file + 1, 0),
            None => fen_rank_from(p, rank, file + 1, empty + 1),
        }
    }
}

/// The FEN placement of ranks `rank` down to the first, ranks separated by '/'.
pub open spec fn fen_board_from(p: Position, rank: int) -> Seq<char>
    decreases rank + 1,
{
    if rank < 0 {
        seq![]
    } else {
        fen_rank_from(p, rank, 0, 0) + (if rank > 0 {
            seq!['/']
        } else {
            seq![]
        }) + fen_board_from(p, rank - 1)
    }
}

/// The FEN the server sends: piece placement and side to move, with castling
/// rights, en passant square and move counters always written "KQkq - 0 1".
pub open spec fn spec_position_to_fen(p: Position) -> Seq<char> {
    fen_board_from(p, 7) + seq![
        ' ',
        if p.side_to_move == Color::White {
            'w'
        } else {
            'b'
        },
        ' ',
        'K',
        'Q',
        'k',
        'q',
        ' ',
        '-',
        ' ',
        '0',
        ' ',
        '1',
    ]
}

fn letter_of(pt: usize, c: Color) -> (ch: char)
    requires
        pt < 6,
    ensures
        ch == piece_letter(pt, c),
{
    let white = c == Color::White;
    match pt {
        PAWN => if white {
            'P'
        } else {
            'p'
        },
        KNIGHT => if white {
            'N'
        } else {
            'n'
        },
        BISHOP => if white {
            'B'
        } else {
            'b'
        },
        ROOK => if white {
            'R'
        } else {
            'r'
        },
        QUEEN => if white {
            'Q'
        } else {
            'q'
        },
        _ => if white {
            'K'
        } else {
            'k'
        },
    }
}

proof fn lemma_piece_type_bound(p: Position, s: int, pt: int)
    ensures
        crate::board::piece_type_from(p, s, pt) matches Some(t) ==> t < 6,
    decreases 6 - pt,
{
    if 0 <= pt < 6 && !crate::bits::sq_in(p.pieces[pt], s) {
        lemma_piece_type_bound(p, s, pt + 1);
    }
}

/// The FEN text of a position, as the server sends it.
pub fn position_to_fen(pos: &Position) -> (fen: String)
    ensures
        fen@ == spec_position_to_fen(*pos),
{
    let mut fen = String::new();
    let mut rank: i8 = 7;
    while rank >= 0
        invariant
            -1 <= rank <= 7,
            fen@ + fen_board_from(*pos, rank as int) == fen_board_from(*pos, 7),
        decreases rank + 1,
    {
        let mut empty: u8 = 0;
        let mut file: u8 = 0;
        let ghost head = fen@;
        while file < 8
            invariant
                0 <= rank <= 7,
                file <= 8,
                empty <= file,
                fen@ + fen_rank_from(*pos, rank as int, file as int, empty as int) == head
                    + fen_rank_from(*pos, rank as int, 0, 0),
            decreases 8 - file,
        {
            let sq = (rank as u8) * 8 + file;
            proof {
                lemma_piece_type_bound(*pos, sq as int, 0);
            }
            let ghost e = empty;
            let ghost before = fen@;
            match pos.piece_at(sq) {
                Some((pt, color)) => {
                    if empty > 0 {
                        push_char(&mut fen, (empty + 48) as char);
                        empty = 0;
                    }
                    push_char(&mut fen, letter_of(pt, color));
                    assert(fen@ + fen_rank_from(*pos, rank as int, file + 1, 0) =~= before
                        + fen_rank_from(*pos, rank as int, file as int, e as int));
                },
                None => {
                    empty += 1;
                },
            }
            file += 1;
        }
        let ghost before = fen@;
        if empty > 0 {
            push_char(&mut fen, (empty + 48) as char);
        }
        assert(fen@ =~= before + fen_rank_from(*pos, rank as int, 8, empty as int));
        if rank > 0 {
            push_char(&mut fen, '/');
        }
        assert(fen@ + fen_board_from(*pos, rank - 1) =~= head + fen_board_from(*pos, rank as int));
        rank -= 1;
    }
    let ghost board = fen@;
    assert(board =~= fen_board_from(*pos, 7));
    push_char(&mut fen, ' ');
    push_char(&mut fen, if pos.side_to_move == Color::White {
        'w'
    } else {
        'b'
    });
    push_char(&mut fen, ' ');
    push_char(&mut fen, 'K');
    push_char(&mut fen, 'Q');
    push_char(&mut fen, 'k');
    push_char(&mut fen, 'q');
    push_char(&mut fen, ' ');
    push_char(&mut fen, '-');
    push_char(&mut fen, ' ');
    push_char(&mut fen, '0');
    push_char(&mut fen, ' ');
    push_char(&mut fen, '1');
    assert(fen@ =~= spec_position_to_fen(*pos));
    fen
}


// ── What a client reads back ───────────────────────────────────────

/// A character the placement field is written with: a rank separator, a run
/// of one to eight empty squares, or a piece letter.
pub open spec fn placement_char(c: char) -> bool {
    c == '/' || ('1' <= c <= '8') || crate::board::piece_of_char(c) is Some
}

/// The words of a text that starts with a run of non-space characters.
proof fn lemma_words_skip(x: Seq<char>, y: Seq<char>, cur: Seq<char>)
    requires
        forall|k: int| 0 <= k < x.len() ==> !crate::text::is_ws(#[trigger] x[k]),
    ensures
        crate::text::words_from(x + y, cur) == crate::text::words_from(y, cur + x),
    decreases x.len(),
{
    if x.len() == 0 {
        assert(x + y =~= y);
        assert(cur + x =~= cur);
    } else {
        assert((x + y)[0] == x[0]);
        assert(!crate::text::is_ws(x[0]));
        assert((x + y).drop_first() =~= x.drop_first() + y);
        assert(cur.push(x[0]) + x.drop_first() =~= cur + x);
        assert forall|k: int| 0 <= k < x.drop_first().len() implies !crate::text::is_ws(
            #[trigger] x.drop_first()[k],
        ) by {
            assert(x.drop_first()[k] == x[k + 1]);
        }
        lemma_words_skip(x.drop_first(), y, cur.push(x[0]));
    }
}

/// The letter of a piece reads back as that piece.
proof fn lemma_letter_reads_back(pt: usize, c: Color)
    requires
        pt < 6,
    ensures
        crate::board::piece_of_char(piece_letter(pt, c)) == Some(
            (pt, if c == Color::White { crate::board::WHITE } else { crate::board::BLACK }),
        ),
        placement_char(piece_letter(pt, c)),
        !crate::text::is_ws(piece_letter(pt, c)),
{
}

/// Whether square `s` has been read once the reader has reached file `file`
/// of rank `rank`: ranks are read from the eighth down, files from a to h.
pub open spec fn read_before(rank: int, file: int, s: int) -> bool {
    s / 8 > rank || (s / 8 == rank && s % 8 < file)
}

/// `q` shows what `p` shows on the squares read so far, and is empty
/// elsewhere.
pub open spec fn copied_upto(q: Position, p: Position, rank: int, file: int) -> bool {
    &&& forall|s: int, t: int|
        0 <= s < 64 && 0 <= t < 6 ==> #[trigger] sq_in(q.pieces[t], s) == (read_before(rank, file, s)
            && (spec_piece_at(p, s) matches Some((pt, _)) && pt == t))
    &&& forall|s: int|
        0 <= s < 64 ==> #[trigger] sq_in(q.colors[0], s) == (read_before(rank, file, s) && (
        spec_piece_at(p, s) matches Some((_, c)) && c == Color::White))
    &&& forall|s: int|
        0 <= s < 64 ==> #[trigger] sq_in(q.colors[1], s) == (read_before(rank, file, s) && (
        spec_piece_at(p, s) matches Some((_, c)) && c == Color::Black))
}

/// Reading past an empty square changes nothing.
proof fn lemma_copy_empty(q: Position, p: Position, rank: int, file: int)
    requires
        0 <= rank < 8,
        0 <= file < 8,
        copied_upto(q, p, rank, file),
        spec_piece_at(p, rank * 8 + file) is None,
    ensures
        copied_upto(q, p, rank, file + 1),
{
    assert forall|s: int| 0 <= s < 64 implies read_before(rank, file + 1, s) == (read_before(
        rank,
        file,
        s,
    ) || s == rank * 8 + file) by {}
}

/// Reading a piece letter puts that piece on its square.
proof fn lemma_copy_piece(q: Position, p: Position, rank: int, file: int, pt: usize, c: Color)
    requires
        0 <= rank < 8,
        0 <= file < 8,
        pt < 6,
        copied_upto(q, p, rank, file),
        spec_piece_at(p, rank * 8 + file) == Some((pt, c)),
    ensures
        copied_upto(
            crate::board::with_piece(
                q,
                pt,
                if c == Color::White {
                    crate::board::WHITE
                } else {
                    crate::board::BLACK
                },
                rank * 8 + file,
            ),
            p,
            rank,
            file + 1,
        ),
{
    broadcast use crate::bits::group_bits;

    let sq = rank * 8 + file;
    let ci = if c == Color::White {
        crate::board::WHITE
    } else {
        crate::board::BLACK
    };
    let q2 = crate::board::with_piece(q, pt, ci, sq);
    let b = crate::board::bit_of(sq);
    assert forall|s: int| 0 <= s < 64 implies #[trigger] sq_in(b, s) == (s == sq) by {
        assert(sq_in(1u64 << (sq as u64), s) == (s == sq as u64));
    }
    assert forall|s: int| 0 <= s < 64 implies read_before(rank, file + 1, s) == (read_before(
        rank,
        file,
        s,
    ) || s == sq) by {}
    assert forall|s: int, t: int| 0 <= s < 64 && 0 <= t < 6 implies #[trigger] sq_in(q2.pieces[t], s)
        == (read_before(rank, file + 1, s) && (spec_piece_at(p, s) matches Some((pt2, _)) && pt2
        == t)) by {
        assert(sq_in(q.pieces[t], s) == (read_before(rank, file, s) && (spec_piece_at(p, s) matches Some(
            (pt2, _),
        ) && pt2 == t)));
        if t == pt {
            assert(q2.pieces[t] == q.pieces[t] | b);
        } else {
            assert(q2.pieces[t] == q.pieces[t]);
        }
    }
    assert forall|s: int| 0 <= s < 64 implies #[trigger] sq_in(q2.colors[0], s) == (read_before(
        rank,
        file + 1,
        s,
    ) && (spec_piece_at(p, s) matches Some((_, c2)) && c2 == Color::White)) by {
        assert(sq_in(q.colors[0], s) == (read_before(rank, file, s) && (spec_piece_at(p, s) matches Some(
            (_, c2),
        ) && c2 == Color::White)));
        if ci == 0 {
            assert(q2.colors[0] == q.colors[0] | b);
        } else {
            assert(q2.colors[0] == q.colors[0]);
        }
    }
    assert forall|s: int| 0 <= s < 64 implies #[trigger] sq_in(q2.colors[1], s) == (read_before(
        rank,
        file + 1,
        s,
    ) && (spec_piece_at(p, s) matches Some((_, c2)) && c2 == Color::Black)) by {
        assert(sq_in(q.colors[1], s) == (read_before(rank, file, s) && (spec_piece_at(p, s) matches Some(
            (_, c2),
        ) && c2 == Color::Black)));
        if ci == 1 {
            assert(q2.colors[1] == q.colors[1] | b);
        } else {
            assert(q2.colors[1] == q.colors[1]);
        }
    }
}

/// Reading the rest of a rank's field puts the rest of the rank's pieces on
/// their squares; `empty` squares before `file` are empty and not yet
/// counted.
proof fn lemma_read_rank(q: Position, p: Position, rank: int, file: int, empty: int, tail: Seq<char>) -> (q2: Position)
    requires
        0 <= rank < 8,
        0 <= empty <= file <= 8,
        copied_upto(q, p, rank, file - empty),
        forall|f: int| file - empty <= f < file ==> #[trigger] spec_piece_at(p, rank * 8 + f) is None,
    ensures
        crate::board::place(q, rank, file - empty, fen_rank_from(p, rank, file, empty) + tail)
            == crate::board::place(q2, rank, 8, tail),
        copied_upto(q2, p, rank, 8),
    decreases 8 - file,
{
    let txt = fen_rank_from(p, rank, file, empty) + tail;
    assert forall|f: int| file - empty <= f <= file implies copied_upto(q, p, rank, f) by {
        lemma_copy_empties(q, p, rank, file - empty, f);
    }
    if file >= 8 {
        if empty > 0 {
            assert(txt[0] == digit_char(empty));
            assert(txt.drop_first() =~= tail);
        } else {
            assert(txt =~= tail);
        }
        q
    } else {
        let sq = rank * 8 + file;
        match spec_piece_at(p, sq) {
            Some((pt, c)) => {
                lemma_piece_type_bound(p, sq, 0);
                lemma_letter_reads_back(pt, c);
                let l = piece_letter(pt, c);
                let rest = fen_rank_from(p, rank, file + 1, 0) + tail;
                let ci = if c == Color::White {
                    crate::board::WHITE
                } else {
                    crate::board::BLACK
                };
                let q1 = crate::board::with_piece(q, pt, ci, sq);
                lemma_copy_piece(q, p, rank, file, pt, c);
                assert(crate::board::place(q, rank, file, seq![l] + rest) == crate::board::place(
                    q1,
                    rank,
                    file + 1,
                    rest,
                )) by {
                    assert((seq![l] + rest)[0] == l);
                    assert((seq![l] + rest).drop_first() =~= rest);
                }
                if empty > 0 {
                    assert(txt =~= seq![digit_char(empty)] + (seq![l] + rest));
                    assert(txt[0] == digit_char(empty));
                    assert(txt.drop_first() =~= seq![l] + rest);
                } else {
                    assert(txt =~= seq![l] + rest);
                }
                lemma_read_rank(q1, p, rank, file + 1, 0, tail)
            },
            None => {
                assert(txt =~= fen_rank_from(p, rank, file + 1, empty + 1) + tail);
                lemma_read_rank(q, p, rank, file + 1, empty + 1, tail)
            },
        }
    }
}

/// Empty squares read one after another change nothing.
proof fn lemma_copy_empties(q: Position, p: Position, rank: int, from: int, to: int)
    requires
        0 <= rank < 8,
        0 <= from <= to <= 8,
        copied_upto(q, p, rank, from),
        forall|f: int| from <= f < to ==> #[trigger] spec_piece_at(p, rank * 8 + f) is None,
    ensures
        copied_upto(q, p, rank, to),
    decreases to - from,
{
    if from < to {
        lemma_copy_empty(q, p, rank, from);
        lemma_copy_empties(q, p, rank, from + 1, to);
    }
}

/// Reading the placement field from rank `rank` down puts every piece of
/// those ranks on its square.
proof fn lemma_read_board(q: Position, p: Position, rank: int) -> (q2: Position)
    requires
        0 <= rank < 8,
        copied_upto(q, p, rank, 0),
    ensures
        crate::board::place(q, rank, 0, fen_board_from(p, rank)) == Some(q2),
        copied_upto(q2, p, -1, 0),
    decreases rank,
{
    let sep = if rank > 0 {
        seq!['/']
    } else {
        seq![]
    };
    let rest = fen_board_from(p, rank - 1);
    assert(fen_board_from(p, rank) =~= fen_rank_from(p, rank, 0, 0) + (sep + rest));
    let q1 = lemma_read_rank(q, p, rank, 0, 0, sep + rest);
    assert forall|s: int| 0 <= s < 64 implies read_before(rank, 8, s) == read_before(rank - 1, 0, s) by {}
    if rank > 0 {
        assert((sep + rest)[0] == '/');
        assert((sep + rest).drop_first() =~= rest);
        lemma_read_board(q1, p, rank - 1)
    } else {
        assert(sep + rest =~= seq![]);
        q1
    }
}

/// The characters of a rank's field are placement characters.
proof fn lemma_rank_chars(p: Position, rank: int, file: int, empty: int)
    requires
        0 <= empty <= file <= 8,
    ensures
        forall|k: int| 0 <= k < fen_rank_from(p, rank, file, empty).len() ==> placement_char(
            #[trigger] fen_rank_from(p, rank, file, empty)[k],
        ),
    decreases 8 - file,
{
    let t = fen_rank_from(p, rank, file, empty);
    if empty > 0 {
        assert('1' <= digit_char(empty) <= '8');
    }
    if file < 8 {
        match spec_piece_at(p, rank * 8 + file) {
            Some((pt, c)) => {
                lemma_piece_type_bound(p, rank * 8 + file, 0);
                lemma_letter_reads_back(pt, c);
                lemma_rank_chars(p, rank, file + 1, 0);
                let head = (if empty > 0 {
                    seq![digit_char(empty)]
                } else {
                    seq![]
                }) + seq![piece_letter(pt, c)];
                let r = fen_rank_from(p, rank, file + 1, 0);
                assert(t =~= head + r);
                assert forall|k: int| 0 <= k < t.len() implies placement_char(#[trigger] t[k]) by {
                    if k >= head.len() {
                        assert(t[k] == r[k - head.len()]);
                    } else {
                        assert(t[k] == head[k]);
                        if empty > 0 && k == 0 {
                            assert(head[k] == digit_char(empty));
                        } else {
                            assert(head[k] == piece_letter(pt, c));
                        }
                    }
                }
            },
            None => {
                lemma_rank_chars(p, rank, file + 1, empty + 1);
                let r = fen_rank_from(p, rank, file + 1, empty + 1);
                assert(t == r);
                assert forall|k: int| 0 <= k < t.len() implies placement_char(#[trigger] t[k]) by {
                    assert(t[k] == r[k]);
                }
            },
        }
    } else if empty > 0 {
        assert(t =~= seq![digit_char(empty)]);
        assert(placement_char(t[0]));
    } else {
        assert(t =~= seq![]);
    }
}

/// The characters of the placement field are placement characters.
proof fn lemma_board_chars(p: Position, rank: int)
    requires
        rank < 8,
    ensures
        forall|k: int| 0 <= k < fen_board_from(p, rank).len() ==> placement_char(
            #[trigger] fen_board_from(p, rank)[k],
        ),
    decreases rank + 1,
{
    if rank >= 0 {
        lemma_rank_chars(p, rank, 0, 0);
        lemma_board_chars(p, rank - 1);
        let a = fen_rank_from(p, rank, 0, 0);
        let sep = if rank > 0 {
            seq!['/']
        } else {
            seq![]
        };
        let b = fen_board_from(p, rank - 1);
        let t = fen_board_from(p, rank);
        assert(t =~= a + sep + b);
        assert forall|k: int| 0 <= k < t.len() implies placement_char(#[trigger] t[k]) by {
            if k < a.len() {
                assert(t[k] == a[k]);
            } else if k < a.len() + sep.len() {
                assert(t[k] == sep[k - a.len()]);
            } else {
                assert(t[k] == b[k - a.len() - sep.len()]);
            }
        }
    }
}

/// A position that shows what `p` shows on every square.
proof fn lemma_copied_all(q: Position, p: Position)
    requires
        copied_upto(q, p, -1, 0),
    ensures
        forall|s: int| #[trigger] spec_piece_at(q, s) == spec_piece_at(p, s),
{
    broadcast use crate::bits::group_bits;

    assert forall|s: int| #[trigger] spec_piece_at(q, s) == spec_piece_at(p, s) by {
        if 0 <= s < 64 {
            assert(read_before(-1, 0, s));
            assert(sq_in(q.colors[0], s) == (spec_piece_at(p, s) matches Some((_, c)) && c
                == Color::White));
            assert(sq_in(q.colors[1], s) == (spec_piece_at(p, s) matches Some((_, c)) && c
                == Color::Black));
            match spec_piece_at(p, s) {
                Some((pt, c)) => {
                    lemma_piece_type_bound(p, s, 0);
                    lemma_type_found(q, s, 0, pt as int);
                },
                None => {},
            }
        }
    }
}

/// When only piece board `pt` holds square `s` among boards `k` and on, the
/// search for the square's piece type finds `pt`.
proof fn lemma_type_found(q: Position, s: int, k: int, pt: int)
    requires
        0 <= k <= pt < 6,
        forall|t: int| k <= t < 6 ==> #[trigger] sq_in(q.pieces[t], s) == (t == pt),
    ensures
        crate::board::piece_type_from(q, s, k) == Some(pt as usize),
    decreases pt - k,
{
    if k < pt {
        assert(!sq_in(q.pieces[k], s));
        lemma_type_found(q, s, k + 1, pt);
    } else {
        assert(sq_in(q.pieces[k], s));
    }
}

/// A word followed by a space reads as that word, then the words after.
proof fn lemma_word_then_space(w: Seq<char>, rest: Seq<char>)
    requires
        w.len() > 0,
        forall|k: int| 0 <= k < w.len() ==> !crate::text::is_ws(#[trigger] w[k]),
    ensures
        crate::text::words_from(w + seq![' '] + rest, seq![]) == seq![w] + crate::text::words_from(
            rest,
            seq![],
        ),
{
    lemma_words_skip(w, seq![' '] + rest, seq![]);
    assert(w + seq![' '] + rest =~= w + (seq![' '] + rest));
    assert(seq![] + w =~= w);
    assert((seq![' '] + rest)[0] == ' ');
    assert((seq![' '] + rest).drop_first() =~= rest);
}

/// Two positions with the same piece boards find the same piece type.
proof fn lemma_same_type(a: Position, b: Position, s: int, k: int)
    requires
        a.pieces == b.pieces,
    ensures
        crate::board::piece_type_from(a, s, k) == crate::board::piece_type_from(b, s, k),
    decreases 6 - k,
{
    if 0 <= k < 6 {
        lemma_same_type(a, b, s, k + 1);
    }
}

/// A client reads back from the server's FEN the position the server holds:
/// the same piece on every square and the same side to move. (The castling
/// rights and en passant square are written as "KQkq" and "-" whatever they
/// are.)
pub proof fn law_fen_reads_back(p: Position)
    ensures
        crate::board::spec_from_fen(spec_position_to_fen(p)) matches Some(q) && q.side_to_move
            == p.side_to_move && (forall|s: int| #[trigger] spec_piece_at(q, s) == spec_piece_at(p, s)),
{
    broadcast use crate::bits::group_bits;

    let b = fen_board_from(p, 7);
    let side = if p.side_to_move == Color::White {
        'w'
    } else {
        'b'
    };
    let tail = seq![side, ' ', 'K', 'Q', 'k', 'q', ' ', '-', ' ', '0', ' ', '1'];
    let fen = spec_position_to_fen(p);
    assert(fen =~= b + (seq![' '] + tail));
    lemma_board_chars(p, 7);
    assert forall|k: int| 0 <= k < b.len() implies !crate::text::is_ws(#[trigger] b[k]) by {
        assert(placement_char(b[k]));
    }
    lemma_words_skip(b, seq![' '] + tail, seq![]);
    assert(seq![] + b =~= b);
    assert(b.len() > 0) by {
        assert(fen_board_from(p, 7) =~= fen_rank_from(p, 7, 0, 0) + seq!['/'] + fen_board_from(p, 6));
    }
    assert((seq![' '] + tail)[0] == ' ');
    assert((seq![' '] + tail).drop_first() =~= tail);
    let words_tail = seq![seq![side], seq!['K', 'Q', 'k', 'q'], seq!['-'], seq!['0'], seq!['1']];
    let r4 = seq!['1'];
    let r3 = seq!['0'] + seq![' '] + r4;
    let r2 = seq!['-'] + seq![' '] + r3;
    let r1 = seq!['K', 'Q', 'k', 'q'] + seq![' '] + r2;
    assert(tail =~= seq![side] + seq![' '] + r1);
    lemma_word_then_space(seq![side], r1);
    lemma_word_then_space(seq!['K', 'Q', 'k', 'q'], r2);
    lemma_word_then_space(seq!['-'], r3);
    lemma_word_then_space(seq!['0'], r4);
    lemma_words_skip(r4, seq![], seq![]);
    assert(r4 + seq![] =~= r4);
    assert(seq![] + r4 =~= r4);
    assert(crate::text::words_from(tail, seq![]) =~= words_tail);
    let parts = crate::text::words(fen);
    assert(crate::text::words_from(fen, seq![]) == crate::text::words_from(seq![' '] + tail, b));
    assert(crate::text::words_from(seq![' '] + tail, b) == seq![b] + crate::text::words_from(
        tail,
        seq![],
    ));
    assert(parts =~= seq![b] + words_tail);
    assert(parts[0] == b);
    assert(parts[1] == seq![side]);
    assert(seq!['b'][0] != seq!['w'][0]);
    assert(copied_upto(crate::board::empty_position(), p, 7, 0));
    let q0 = lemma_read_board(crate::board::empty_position(), p, 7);
    lemma_copied_all(q0, p);
    assert(crate::board::place(crate::board::empty_position(), 7, 0, parts[0]) == Some(q0));
    let q = crate::board::spec_from_fen(fen);
    assert(q is Some);
    assert(q->0.side_to_move == p.side_to_move);
    assert(q->0.pieces == q0.pieces && q->0.colors == q0.colors);
    assert forall|sq: int| #[trigger] spec_piece_at(q->0, sq) == spec_piece_at(p, sq) by {
        assert(spec_piece_at(q0, sq) == spec_piece_at(p, sq));
        lemma_same_type(q->0, q0, sq, 0);
    }
}

/// The FEN of a rank depends only on what stands on its squares.
proof fn lemma_same_rank_text(p: Position, q: Position, rank: int, file: int, empty: int)
    requires
        forall|s: int| #[trigger] spec_piece_at(q, s) == spec_piece_at(p, s),
    ensures
        fen_rank_from(q, rank, file, empty) == fen_rank_from(p, rank, file, empty),
    decreases 8 - file,
{
    if 0 <= file < 8 {
        assert(spec_piece_at(q, rank * 8 + file) == spec_piece_at(p, rank * 8 + file));
        lemma_same_rank_text(p, q, rank, file + 1, 0);
        lemma_same_rank_text(p, q, rank, file + 1, empty + 1);
    }
}

/// The FEN placement depends only on what stands on the squares.
proof fn lemma_same_board_text(p: Position, q: Position, rank: int)
    requires
        forall|s: int| #[trigger] spec_piece_at(q, s) == spec_piece_at(p, s),
    ensures
        fen_board_from(q, rank) == fen_board_from(p, rank),
    decreases rank + 1,
{
    if rank >= 0 {
        lemma_same_rank_text(p, q, rank, 0, 0);
        lemma_same_board_text(p, q, rank - 1);
    }
}

/// A FEN the server writes is canonical: read back and written again it comes
/// out unchanged.
pub proof fn law_written_fen_is_fixed(p: Position)
    ensures
        crate::board::spec_from_fen(spec_position_to_fen(p)) matches Some(q)
            && spec_position_to_fen(q) == spec_position_to_fen(p),
{
    law_fen_reads_back(p);
    let q = crate::board::spec_from_fen(spec_position_to_fen(p))->0;
    lemma_same_board_text(p, q, 7);
}

// ── Canonical placements ──────────────────────────────────────────

/// A digit of a FEN rank: one to eight empty squares.
pub open spec fn is_fen_digit(c: char) -> bool {
    '1' <= c <= '8'
}

/// A FEN piece letter.
pub open spec fn is_piece_letter(c: char) -> bool {
    crate::board::piece_of_char(c) is Some
}

/// The piece a FEN letter names, with its colour.
pub open spec fn letter_piece(c: char) -> (usize, Color) {
    let (pt, ci) = crate::board::piece_of_char(c)->0;
    (
        pt,
        if ci == crate::board::WHITE {
            Color::White
        } else {
            Color::Black
        },
    )
}

/// The number of squares a rank text covers: a digit its value, a letter one.
pub open spec fn rank_width(t: Seq<char>) -> int
    decreases t.len(),
{
    if t.len() == 0 {
        0
    } else {
        (if is_fen_digit(t[0]) {
            t[0] as int - 48
        } else {
            1
        }) + rank_width(t.drop_first())
    }
}

/// A rank written the canonical way: piece letters and digits one to eight,
/// never two digits in a row, covering the eight squares of the rank.
pub open spec fn canonical_rank(t: Seq<char>) -> bool {
    &&& forall|i: int| 0 <= i < t.len() ==> is_piece_letter(#[trigger] t[i]) || is_fen_digit(t[i])
    &&& forall|i: int| 0 <= i < t.len() - 1 ==> !(is_fen_digit(#[trigger] t[i]) && is_fen_digit(t[i + 1]))
    &&& rank_width(t) == 8
}

/// What stands on file `f` of a rank text.
pub open spec fn cell_at(t: Seq<char>, f: int) -> Option<(usize, Color)>
    decreases t.len(),
{
    if t.len() == 0 {
        None
    } else if is_fen_digit(t[0]) {
        if f < t[0] as int - 48 {
            None
        } else {
            cell_at(t.drop_first(), f - (t[0] as int - 48))
        }
    } else if f == 0 {
        Some(letter_piece(t[0]))
    } else {
        cell_at(t.drop_first(), f - 1)
    }
}

/// The ranks `ranks[k..]`, from the eighth rank down, joined by '/'.
pub open spec fn join_ranks(ranks: Seq<Seq<char>>, k: int) -> Seq<char>
    decreases 8 - k,
{
    if k >= 8 || k < 0 {
        seq![]
    } else {
        ranks[k] + (if k < 7 {
            seq!['/']
        } else {
            seq![]
        }) + join_ranks(ranks, k + 1)
    }
}

/// The bitboard of the squares below `n` that satisfy `on`.
pub open spec fn board_where(on: spec_fn(int) -> bool, n: int) -> u64
    decreases n,
{
    if n <= 0 {
        0
    } else {
        board_where(on, n - 1) | (if on(n - 1) {
            1u64 << ((n - 1) as u64)
        } else {
            0u64
        })
    }
}

proof fn lemma_board_where(on: spec_fn(int) -> bool, n: int, s: int)
    requires
        n <= 64,
    ensures
        sq_in(board_where(on, n), s) == (0 <= s < n && on(s)),
    decreases n,
{
    broadcast use crate::bits::group_bits;

    if n > 0 {
        lemma_board_where(on, n - 1, s);
    }
}

/// What stands on square `s` of the placement `ranks` (the eighth rank first).
pub open spec fn cell_of(ranks: Seq<Seq<char>>, s: int) -> Option<(usize, Color)> {
    cell_at(ranks[7 - s / 8], s % 8)
}

/// The position the placement `ranks` describes, with `side` to move, all
/// castling rights, and no en passant square.
pub open spec fn position_of_ranks(ranks: Seq<Seq<char>>, side: Color) -> Position {
    let piece = |i: int| board_where(|s: int| cell_of(ranks, s) matches Some((pt, _c)) && pt == i, 64);
    let color = |c: Color| board_where(|s: int| cell_of(ranks, s) matches Some((_pt, cc)) && cc == c, 64);
    Position {
        pieces: [piece(0), piece(1), piece(2), piece(3), piece(4), piece(5)],
        colors: [color(Color::White), color(Color::Black)],
        side_to_move: side,
        castling: 15,
        en_passant: None,
    }
}

proof fn lemma_cell_piece(t: Seq<char>, f: int)
    requires
        forall|i: int| 0 <= i < t.len() ==> is_piece_letter(#[trigger] t[i]) || is_fen_digit(t[i]),
    ensures
        cell_at(t, f) matches Some((pt, _c)) ==> pt < 6,
    decreases t.len(),
{
    if t.len() > 0 {
        let rest = t.drop_first();
        assert forall|i: int| 0 <= i < rest.len() implies is_piece_letter(#[trigger] rest[i]) || is_fen_digit(rest[i]) by {
            assert(rest[i] == t[i + 1]);
        }
        assert(is_piece_letter(t[0]) || is_fen_digit(t[0]));
        lemma_cell_piece(rest, if is_fen_digit(t[0]) {
            f - (t[0] as int - 48)
        } else {
            f - 1
        });
    }
}

/// The squares a rank text of letters and digits covers: never a negative
/// number, and at least one when the text is not empty.
proof fn lemma_rank_width(t: Seq<char>)
    requires
        forall|i: int| 0 <= i < t.len() ==> is_piece_letter(#[trigger] t[i]) || is_fen_digit(t[i]),
    ensures
        rank_width(t) >= 0,
        t.len() > 0 ==> rank_width(t) >= 1,
    decreases t.len(),
{
    if t.len() > 0 {
        let rest = t.drop_first();
        assert forall|i: int| 0 <= i < rest.len() implies is_piece_letter(#[trigger] rest[i]) || is_fen_digit(rest[i]) by {
            assert(rest[i] == t[i + 1]);
        }
        assert(is_piece_letter(t[0]) || is_fen_digit(t[0]));
        lemma_rank_width(rest);
    }
}

proof fn lemma_lowest_type(p: Position, s: int, k: int, pt: int)
    requires
        0 <= k <= pt < 6,
        sq_in(p.pieces[pt], s),
        forall|i: int| k <= i < 6 && i != pt ==> !#[trigger] sq_in(p.pieces[i], s),
    ensures
        crate::board::piece_type_from(p, s, k) == Some(pt as usize),
    decreases pt - k,
{
    if k < pt {
        lemma_lowest_type(p, s, k + 1, pt);
    }
}

/// Each square of the described position holds what the placement says.
proof fn lemma_position_of_ranks(ranks: Seq<Seq<char>>, side: Color, s: int)
    requires
        0 <= s < 64,
        ranks.len() == 8,
        forall|k: int| 0 <= k < 8 ==> canonical_rank(#[trigger] ranks[k]),
    ensures
        spec_piece_at(position_of_ranks(ranks, side), s) == cell_of(ranks, s),
{
    let p = position_of_ranks(ranks, side);
    assert(canonical_rank(ranks[7 - s / 8]));
    lemma_cell_piece(ranks[7 - s / 8], s % 8);
    let on_piece = |i: int| |x: int| cell_of(ranks, x) matches Some((pt, _c)) && pt == i;
    let on_color = |c: Color| |x: int| cell_of(ranks, x) matches Some((_pt, cc)) && cc == c;
    assert forall|i: int| 0 <= i < 6 implies #[trigger] sq_in(p.pieces[i], s) == (cell_of(ranks, s) matches Some((pt, _c)) && pt == i) by {
        lemma_board_where(on_piece(i), 64, s);
    }
    lemma_board_where(on_color(Color::White), 64, s);
    lemma_board_where(on_color(Color::Black), 64, s);
    assert(sq_in(crate::board::occupancy(p), s) == (sq_in(p.colors[0], s) || sq_in(p.colors[1], s))) by {
        broadcast use crate::bits::group_bits;
    }
    if let Some((pt, c)) = cell_of(ranks, s) {
        lemma_lowest_type(p, s, 0, pt as int);
    }
}

/// A piece letter is written back as itself.
proof fn lemma_letter_written_back(c: char)
    requires
        is_piece_letter(c),
    ensures
        piece_letter(letter_piece(c).0, letter_piece(c).1) == c,
        letter_piece(c).0 < 6,
{
}

/// What stands on file `g` of rank `rank`.
pub open spec fn on_file(p: Position, rank: int, g: int) -> Option<(usize, Color)> {
    spec_piece_at(p, rank * 8 + g)
}

/// Empty squares from file `f` on only add to the count the writer carries.
proof fn lemma_rank_empties(p: Position, rank: int, f: int, e: int, k: int)
    requires
        0 <= f,
        0 <= k,
        f + k <= 8,
        forall|g: int| f <= g < f + k ==> #[trigger] on_file(p, rank, g) is None,
    ensures
        fen_rank_from(p, rank, f, e) == fen_rank_from(p, rank, f + k, e + k),
    decreases k,
{
    if k > 0 {
        assert(on_file(p, rank, f) is None);
        lemma_rank_empties(p, rank, f + 1, e + 1, k - 1);
    }
}

/// A rank of the board whose squares from file `f` on hold what the canonical
/// text `t` says is written as `t`.
proof fn lemma_rank_text(p: Position, rank: int, t: Seq<char>, f: int)
    requires
        0 <= f <= 8,
        forall|i: int| 0 <= i < t.len() ==> is_piece_letter(#[trigger] t[i]) || is_fen_digit(t[i]),
        forall|i: int| 0 <= i < t.len() - 1 ==> !(is_fen_digit(#[trigger] t[i]) && is_fen_digit(t[i + 1])),
        rank_width(t) == 8 - f,
        forall|g: int| f <= g < 8 ==> #[trigger] on_file(p, rank, g) == cell_at(t, g - f),
    ensures
        fen_rank_from(p, rank, f, 0) == t,
    decreases t.len(),
{
    lemma_rank_width(t);
    if t.len() == 0 {
    } else {
        let rest = t.drop_first();
        assert forall|i: int| 0 <= i < rest.len() implies is_piece_letter(#[trigger] rest[i]) || is_fen_digit(rest[i]) by {
            assert(rest[i] == t[i + 1]);
        }
        lemma_rank_width(rest);
        assert forall|i: int| 0 <= i < rest.len() - 1 implies !(is_fen_digit(#[trigger] rest[i]) && is_fen_digit(rest[i + 1])) by {
            assert(rest[i] == t[i + 1] && rest[i + 1] == t[i + 2]);
        }
        assert(is_piece_letter(t[0]) || is_fen_digit(t[0]));
        if !is_fen_digit(t[0]) {
            lemma_letter_written_back(t[0]);
            assert(on_file(p, rank, f) == cell_at(t, 0));
            assert forall|g: int| f + 1 <= g < 8 implies #[trigger] on_file(p, rank, g) == cell_at(rest, g - (f + 1)) by {
                assert(on_file(p, rank, g) == cell_at(t, g - f));
            }
            lemma_rank_text(p, rank, rest, f + 1);
            assert(t =~= seq![t[0]] + rest);
        } else {
            let d = t[0] as int - 48;
            assert forall|g: int| f <= g < f + d implies #[trigger] on_file(p, rank, g) is None by {
                assert(on_file(p, rank, g) == cell_at(t, g - f));
            }
            lemma_rank_empties(p, rank, f, 0, d);
            assert(digit_char(d) == t[0]);
            if rest.len() == 0 {
                assert(t =~= seq![t[0]]);
            } else {
                let rest2 = rest.drop_first();
                assert(!is_fen_digit(rest[0]));
                assert(is_piece_letter(rest[0]));
                lemma_letter_written_back(rest[0]);
                assert(rank_width(rest) == rank_width(rest2) + 1);
                assert(on_file(p, rank, f + d) == cell_at(t, d));
                assert(cell_at(t, d) == cell_at(rest, 0));
                assert forall|i: int| 0 <= i < rest2.len() implies is_piece_letter(#[trigger] rest2[i]) || is_fen_digit(rest2[i]) by {
                    assert(rest2[i] == t[i + 2]);
                }
                assert forall|i: int| 0 <= i < rest2.len() - 1 implies !(is_fen_digit(#[trigger] rest2[i]) && is_fen_digit(rest2[i + 1])) by {
                    assert(rest2[i] == t[i + 2] && rest2[i + 1] == t[i + 3]);
                }
                assert forall|g: int| f + d + 1 <= g < 8 implies #[trigger] on_file(p, rank, g) == cell_at(rest2, g - (f + d + 1)) by {
                    assert(on_file(p, rank, g) == cell_at(t, g - f));
                    assert(cell_at(t, g - f) == cell_at(rest, g - f - d));
                }
                lemma_rank_text(p, rank, rest2, f + d + 1);
                assert(t =~= seq![t[0]] + seq![rest[0]] + rest2);
            }
        }
    }
}

/// The placement of the described position, from rank `r` down, is the joined text.
proof fn lemma_board_text(ranks: Seq<Seq<char>>, side: Color, r: int)
    requires
        ranks.len() == 8,
        forall|k: int| 0 <= k < 8 ==> canonical_rank(#[trigger] ranks[k]),
        -1 <= r <= 7,
    ensures
        fen_board_from(position_of_ranks(ranks, side), r) == join_ranks(ranks, 7 - r),
    decreases r + 1,
{
    if r >= 0 {
        let p = position_of_ranks(ranks, side);
        let t = ranks[7 - r];
        assert(canonical_rank(t));
        assert forall|g: int| 0 <= g < 8 implies #[trigger] on_file(p, r, g) == cell_at(t, g - 0) by {
            lemma_position_of_ranks(ranks, side, r * 8 + g);
            assert((r * 8 + g) / 8 == r);
            assert((r * 8 + g) % 8 == g);
        }
        lemma_rank_text(p, r, t, 0);
        lemma_board_text(ranks, side, r - 1);
    }
}

/// A FEN whose placement is written the canonical way, with "w" or "b" to
/// move and "KQkq - 0 1" after, reads back to a position that is written as
/// the same FEN.
pub proof fn law_canonical_fen_reads_back(ranks: Seq<Seq<char>>, side: char)
    requires
        ranks.len() == 8,
        forall|k: int| 0 <= k < 8 ==> canonical_rank(#[trigger] ranks[k]),
        side == 'w' || side == 'b',
    ensures
        ({
            let s = join_ranks(ranks, 0) + seq![' ', side, ' ', 'K', 'Q', 'k', 'q', ' ', '-', ' ', '0', ' ', '1'];
            crate::board::spec_from_fen(s) matches Some(q) && spec_position_to_fen(q) == s
        }),
{
    let c = if side == 'w' {
        Color::White
    } else {
        Color::Black
    };
    let p = position_of_ranks(ranks, c);
    lemma_board_text(ranks, c, 7);
    let s = join_ranks(ranks, 0) + seq![' ', side, ' ', 'K', 'Q', 'k', 'q', ' ', '-', ' ', '0', ' ', '1'];
    assert(spec_position_to_fen(p) =~= s);
    law_written_fen_is_fixed(p);
}

// ── Server State ───────────────────────────────────────────────────

/// A connected client.
pub struct ConnectedPlayer {
    pub id: u32,
    pub name: String,
    pub room_id: Option<u32>,
    pub table_id: Option<u32>,
}

/// A room: its members and its main board. Its tables are the server's tables
/// that name the room.
pub struct Room {
    pub id: u32,
    pub name: String,
    pub moderator: u32,
    pub player_ids: Vec<u32>,
    pub next_table_id: u32,
    pub main_board_mode: BoardMode,
    pub main_board_pos: Position,
}

/// A game table within a room.
pub struct GameTable {
    pub id: u32,
    pub room_id: u32,
    pub white: Option<u32>,
    pub black: Option<u32>,
    pub spectators: Vec<u32>,
    pub position: Position,
    pub game_active: bool,
    pub time_control: TimeControl,
}

/// The whole server: players, rooms and tables, each in the order created.
pub struct ServerState {
    pub next_id: u32,
    pub players: Vec<ConnectedPlayer>,
    pub rooms: Vec<Room>,
    pub tables: Vec<GameTable>,
}

/// A message and the players it goes to, in order.
pub struct Delivery {
    pub to: Vec<u32>,
    pub msg: ServerMsg,
}

pub struct PlayerV {
    pub id: u32,
    pub name: Seq<char>,
    pub room_id: Option<u32>,
    pub table_id: Option<u32>,
}

pub struct RoomV {
    pub id: u32,
    pub name: Seq<char>,
    pub moderator: u32,
    pub player_ids: Seq<u32>,
    pub next_table_id: u32,
    pub main_board_mode: BoardMode,
    pub main_board_pos: Position,
}

pub struct TableV {
    pub id: u32,
    pub room_id: u32,
    pub white: Option<u32>,
    pub black: Option<u32>,
    pub spectators: Seq<u32>,
    pub position: Position,
    pub game_active: bool,
    pub time_control: TimeControl,
}

pub struct ServerV {
    pub next_id: u32,
    pub players: Seq<PlayerV>,
    pub rooms: Seq<RoomV>,
    pub tables: Seq<TableV>,
}

pub struct DeliveryV {
    pub to: Seq<u32>,
    pub msg: ServerMsgV,
}

impl View for ConnectedPlayer {
    type V = PlayerV;

    open spec fn view(&self) -> PlayerV {
        PlayerV { id: self.id, name: self.name@, room_id: self.room_id, table_id: self.table_id }
    }
}

impl View for Room {
    type V = RoomV;

    open spec fn view(&self) -> RoomV {
        RoomV {
            id: self.id,
            name: self.name@,
            moderator: self.moderator,
            player_ids: self.player_ids@,
            next_table_id: self.next_table_id,
            main_board_mode: self.main_board_mode,
            main_board_pos: self.main_board_pos,
        }
    }
}

impl View for GameTable {
    type V = TableV;

    open spec fn view(&self) -> TableV {
        TableV {
            id: self.id,
            room_id: self.room_id,
            white: self.white,
            black: self.black,
            spectators: self.spectators@,
            position: self.position,
            game_active: self.game_active,
            time_control: self.time_control,
        }
    }
}

impl View for ServerState {
    type V = ServerV;

    open spec fn view(&self) -> ServerV {
        ServerV {
            next_id: self.next_id,
            players: self.players@.map_values(|p: ConnectedPlayer| p@),
            rooms: self.rooms@.map_values(|r: Room| r@),
            tables: self.tables@.map_values(|t: GameTable| t@),
        }
    }
}

impl View for Delivery {
    type V = DeliveryV;

    open spec fn view(&self) -> DeliveryV {
        DeliveryV { to: self.to@, msg: self.msg@ }
    }
}

pub open spec fn deliveries_view(v: Seq<Delivery>) -> Seq<DeliveryV> {
    v.map_values(|d: Delivery| d@)
}

// ── Lookups ────────────────────────────────────────────────────────

/// The index of the first player with id `id` at or after `i`, or -1.
pub open spec fn player_from(ps: Seq<PlayerV>, id: u32, i: int) -> int
    decreases ps.len() - i,
{
    if i < 0 || i >= ps.len() {
        -1
    } else if ps[i].id == id {
        i
    } else {
        player_from(ps, id, i + 1)
    }
}

pub open spec fn player_idx(s: ServerV, id: u32) -> int {
    player_from(s.players, id, 0)
}

pub open spec fn room_from(rs: Seq<RoomV>, id: u32, i: int) -> int
    decreases rs.len() - i,
{
    if i < 0 || i >= rs.len() {
        -1
    } else if rs[i].id == id {
        i
    } else {
        room_from(rs, id, i + 1)
    }
}

pub open spec fn room_idx(s: ServerV, id: u32) -> int {
    room_from(s.rooms, id, 0)
}

pub open spec fn table_from(ts: Seq<TableV>, room_id: u32, id: u32, i: int) -> int
    decreases ts.len() - i,
{
    if i < 0 || i >= ts.len() {
        -1
    } else if ts[i].room_id == room_id && ts[i].id == id {
        i
    } else {
        table_from(ts, room_id, id, i + 1)
    }
}

pub open spec fn table_idx(s: ServerV, room_id: u32, id: u32) -> int {
    table_from(s.tables, room_id, id, 0)
}

pub proof fn lemma_player_from(ps: Seq<PlayerV>, id: u32, i: int)
    requires
        0 <= i <= ps.len(),
    ensures
        player_from(ps, id, i) == -1 || (i <= player_from(ps, id, i) < ps.len() && ps[player_from(
            ps,
            id,
            i,
        )].id == id),
        forall|k: int|
            i <= k < ps.len() && (player_from(ps, id, i) == -1 || k < player_from(ps, id, i))
                ==> ps[k].id != id,
    decreases ps.len() - i,
{
    if i < ps.len() && ps[i].id != id {
        lemma_player_from(ps, id, i + 1);
    }
}

pub proof fn lemma_room_from(rs: Seq<RoomV>, id: u32, i: int)
    requires
        0 <= i <= rs.len(),
    ensures
        room_from(rs, id, i) == -1 || (i <= room_from(rs, id, i) < rs.len() && rs[room_from(
            rs,
            id,
            i,
        )].id == id),
        forall|k: int|
            i <= k < rs.len() && (room_from(rs, id, i) == -1 || k < room_from(rs, id, i))
                ==> rs[k].id != id,
    decreases rs.len() - i,
{
    if i < rs.len() && rs[i].id != id {
        lemma_room_from(rs, id, i + 1);
    }
}

pub proof fn lemma_table_from(ts: Seq<TableV>, room_id: u32, id: u32, i: int)
    requires
        0 <= i <= ts.len(),
    ensures
        table_from(ts, room_id, id, i) == -1 || (i <= table_from(ts, room_id, id, i) < ts.len()
            && ts[table_from(ts, room_id, id, i)].room_id == room_id && ts[table_from(
            ts,
            room_id,
            id,
            i,
        )].id == id),
        forall|k: int|
            i <= k < ts.len() && (table_from(ts, room_id, id, i) == -1 || k < table_from(
                ts,
                room_id,
                id,
                i,
            )) ==> !(ts[k].room_id == room_id && ts[k].id == id),
    decreases ts.len() - i,
{
    if i < ts.len() && !(ts[i].room_id == room_id && ts[i].id == id) {
        lemma_table_from(ts, room_id, id, i + 1);
    }
}

impl ServerState {
    pub(crate) fn player_index(&self, id: u32) -> (r: Option<usize>)
        ensures
            match r {
                Some(i) => i as int == player_idx(self@, id) && i < self.players.len(),
                None => player_idx(self@, id) == -1,
            },
    {
        proof {
            lemma_player_from(self@.players, id, 0);
        }
        let mut i: usize = 0;
        while i < self.players.len()
            invariant
                i <= self.players.len(),
                player_from(self@.players, id, i as int) == player_idx(self@, id),
            decreases self.players.len() - i,
        {
            if self.players[i].id == id {
                return Some(i);
            }
            i += 1;
        }
        None
    }

    pub(crate) fn room_index(&self, id: u32) -> (r: Option<usize>)
        ensures
            match r {
                Some(i) => i as int == room_idx(self@, id) && i < self.rooms.len(),
                None => room_idx(self@, id) == -1,
            },
    {
        let mut i: usize = 0;
        while i < self.rooms.len()
            invariant
                i <= self.rooms.len(),
                room_from(self@.rooms, id, i as int) == room_idx(self@, id),
            decreases self.rooms.len() - i,
        {
            if self.rooms[i].id == id {
                return Some(i);
            }
            i += 1;
        }
        None
    }

    pub(crate) fn table_index(&self, room_id: u32, id: u32) -> (r: Option<usize>)
        ensures
            match r {
                Some(i) => i as int == table_idx(self@, room_id, id) && i < self.tables.len(),
                None => table_idx(self@, room_id, id) == -1,
            },
    {
        let mut i: usize = 0;
        while i < self.tables.len()
            invariant
                i <= self.tables.len(),
                table_from(self@.tables, room_id, id, i as int) == table_idx(self@, room_id, id),
            decreases self.tables.len() - i,
        {
            if self.tables[i].room_id == room_id && self.tables[i].id == id {
                return Some(i);
            }
            i += 1;
        }
        None
    }
}


// ── What the server reports ────────────────────────────────────────

/// The name of player `id`, empty when there is no such player.
pub open spec fn name_of(s: ServerV, id: u32) -> Seq<char> {
    let i = player_idx(s, id);
    if i >= 0 {
        s.players[i].name
    } else {
        seq![]
    }
}

/// Whether player `id` sits at or watches a table: the table its record names,
/// when that table (and its room) exists; playing when in one of its seats.
pub open spec fn info_of(s: ServerV, id: u32) -> Option<PlayerInfoV> {
    let i = player_idx(s, id);
    if i < 0 {
        None
    } else {
        let p = s.players[i];
        let at = match (p.table_id, p.room_id) {
            (Some(tid), Some(rid)) => if room_idx(s, rid) >= 0 && table_idx(s, rid, tid) >= 0 {
                let t = s.tables[table_idx(s, rid, tid)];
                if t.white == Some(id) || t.black == Some(id) {
                    (PlayerStatus::Playing, Some(tid))
                } else {
                    (PlayerStatus::Spectating, Some(tid))
                }
            } else {
                (PlayerStatus::Idle, None)
            },
            _ => (PlayerStatus::Idle, None),
        };
        Some(PlayerInfoV { id, name: p.name, status: at.0, table_id: at.1 })
    }
}

pub open spec fn ref_of(s: ServerV, id: Option<u32>) -> Option<PlayerRefV> {
    match id {
        Some(i) => Some(PlayerRefV { id: i, name: name_of(s, i) }),
        None => None,
    }
}

pub open spec fn table_info_of(s: ServerV, t: TableV) -> TableInfoV {
    TableInfoV {
        id: t.id,
        white: ref_of(s, t.white),
        black: ref_of(s, t.black),
        spectator_count: t.spectators.len() as u32,
        has_game: t.game_active,
        time_control: t.time_control,
    }
}

/// How many of the first `n` tables belong to room `rid`.
pub open spec fn count_tables(ts: Seq<TableV>, rid: u32, n: int) -> int
    decreases n,
{
    if n <= 0 {
        0
    } else {
        count_tables(ts, rid, n - 1) + if ts[n - 1].room_id == rid {
            1int
        } else {
            0
        }
    }
}

/// How many of the first `n` tables belong to room `rid` and have a game going.
pub open spec fn count_active(ts: Seq<TableV>, rid: u32, n: int) -> int
    decreases n,
{
    if n <= 0 {
        0
    } else {
        count_active(ts, rid, n - 1) + if ts[n - 1].room_id == rid && ts[n - 1].game_active {
            1int
        } else {
            0
        }
    }
}

pub open spec fn room_info_of(s: ServerV, r: RoomV) -> RoomInfoV {
    RoomInfoV {
        id: r.id,
        name: r.name,
        player_count: r.player_ids.len() as u32,
        table_count: count_tables(s.tables, r.id, s.tables.len() as int) as u32,
        active_games: count_active(s.tables, r.id, s.tables.len() as int) as u32,
    }
}

/// The reports of the first `n` tables of room `rid`, in order.
pub open spec fn table_infos_of(s: ServerV, rid: u32, n: int) -> Seq<TableInfoV>
    decreases n,
{
    if n <= 0 {
        seq![]
    } else {
        table_infos_of(s, rid, n - 1) + if s.tables[n - 1].room_id == rid {
            seq![table_info_of(s, s.tables[n - 1])]
        } else {
            seq![]
        }
    }
}

/// The reports of the first `n` rooms, in order.
pub open spec fn room_infos_of(s: ServerV, n: int) -> Seq<RoomInfoV>
    decreases n,
{
    if n <= 0 {
        seq![]
    } else {
        room_infos_of(s, n - 1) + seq![room_info_of(s, s.rooms[n - 1])]
    }
}

/// The reports of the first `n` of `ids` that are players, in order.
pub open spec fn infos_of(s: ServerV, ids: Seq<u32>, n: int) -> Seq<PlayerInfoV>
    decreases n,
{
    if n <= 0 {
        seq![]
    } else {
        infos_of(s, ids, n - 1) + match info_of(s, ids[n - 1]) {
            Some(x) => seq![x],
            None => seq![],
        }
    }
}

/// The first `n` of `ids` that are connected players other than `exclude`.
pub open spec fn reachable(s: ServerV, ids: Seq<u32>, exclude: Option<u32>, n: int) -> Seq<u32>
    decreases n,
{
    if n <= 0 {
        seq![]
    } else {
        reachable(s, ids, exclude, n - 1) + if exclude != Some(ids[n - 1]) && player_idx(
            s,
            ids[n - 1],
        ) >= 0 {
            seq![ids[n - 1]]
        } else {
            seq![]
        }
    }
}

/// The members of room `rid` a broadcast reaches: the connected ones other than
/// `exclude`, in the order they joined; nobody when the room does not exist.
pub open spec fn room_audience(s: ServerV, rid: u32, exclude: Option<u32>) -> Seq<u32> {
    let r = room_idx(s, rid);
    if r >= 0 {
        reachable(s, s.rooms[r].player_ids, exclude, s.rooms[r].player_ids.len() as int)
    } else {
        seq![]
    }
}

pub open spec fn broadcast(s: ServerV, rid: u32, msg: ServerMsgV, exclude: Option<u32>) -> Seq<
    DeliveryV,
> {
    seq![DeliveryV { to: room_audience(s, rid, exclude), msg }]
}

/// A message to one player: delivered when the player is connected.
pub open spec fn send_to(s: ServerV, pid: u32, msg: ServerMsgV) -> Seq<DeliveryV> {
    seq![
        DeliveryV {
            to: if player_idx(s, pid) >= 0 {
                seq![pid]
            } else {
                seq![]
            },
            msg,
        },
    ]
}

pub(crate) fn clone_string(s: &String) -> (r: String)
    ensures
        r@ == s@,
{
    s.clone()
}

impl ServerState {
    pub fn player_name(&self, id: u32) -> (name: String)
        ensures
            name@ == name_of(self@, id),
    {
        match self.player_index(id) {
            Some(i) => clone_string(&self.players[i].name),
            None => String::new(),
        }
    }

    pub fn player_info(&self, id: u32) -> (r: Option<PlayerInfo>)
        ensures
            match r {
                Some(x) => info_of(self@, id) == Some(x@),
                None => info_of(self@, id).is_none(),
            },
    {
        let i = match self.player_index(id) {
            Some(i) => i,
            None => {
                return None;
            },
        };
        let p = &self.players[i];
        let mut status = PlayerStatus::Idle;
        let mut table_id: Option<u32> = None;
        match (p.table_id, p.room_id) {
            (Some(tid), Some(rid)) => {
                if self.room_index(rid).is_some() {
                    match self.table_index(rid, tid) {
                        Some(ti) => {
                            let t = &self.tables[ti];
                            if t.white == Some(id) || t.black == Some(id) {
                                status = PlayerStatus::Playing;
                            } else {
                                status = PlayerStatus::Spectating;
                            }
                            table_id = Some(tid);
                        },
                        None => {},
                    }
                }
            },
            _ => {},
        }
        Some(PlayerInfo { id, name: clone_string(&p.name), status, table_id })
    }

    pub(crate) fn player_ref(&self, id: Option<u32>) -> (r: Option<PlayerRef>)
        ensures
            crate::protocol::ref_view(r) == ref_of(self@, id),
    {
        match id {
            Some(i) => Some(PlayerRef { id: i, name: self.player_name(i) }),
            None => None,
        }
    }

    pub fn table_info(&self, t: &GameTable) -> (r: TableInfo)
        ensures
            r@ == table_info_of(self@, t@),
    {
        TableInfo {
            id: t.id,
            white: self.player_ref(t.white),
            black: self.player_ref(t.black),
            spectator_count: t.spectators.len() as u32,
            has_game: t.game_active,
            time_control: t.time_control,
        }
    }

    pub fn room_info(&self, r: &Room) -> (info: RoomInfo)
        ensures
            info@ == room_info_of(self@, r@),
    {
        let mut tables: usize = 0;
        let mut active: usize = 0;
        let mut i: usize = 0;
        while i < self.tables.len()
            invariant
                i <= self.tables.len(),
                tables as int == count_tables(self@.tables, r.id, i as int),
                active as int == count_active(self@.tables, r.id, i as int),
                tables <= i,
                active <= i,
            decreases self.tables.len() - i,
        {
            if self.tables[i].room_id == r.id {
                tables += 1;
                if self.tables[i].game_active {
                    active += 1;
                }
            }
            i += 1;
        }
        RoomInfo {
            id: r.id,
            name: clone_string(&r.name),
            player_count: r.player_ids.len() as u32,
            table_count: tables as u32,
            active_games: active as u32,
        }
    }

    pub(crate) fn room_tables_info(&self, rid: u32) -> (r: Vec<TableInfo>)
        ensures
            tables_view(r@) == table_infos_of(self@, rid, self.tables.len() as int),
    {
        let mut r: Vec<TableInfo> = Vec::new();
        let mut i: usize = 0;
        while i < self.tables.len()
            invariant
                i <= self.tables.len(),
                tables_view(r@) == table_infos_of(self@, rid, i as int),
            decreases self.tables.len() - i,
        {
            if self.tables[i].room_id == rid {
                let info = self.table_info(&self.tables[i]);
                r.push(info);
            }
            assert(tables_view(r@) =~= table_infos_of(self@, rid, i + 1));
            i += 1;
        }
        r
    }

    pub(crate) fn all_room_infos(&self) -> (r: Vec<RoomInfo>)
        ensures
            rooms_view(r@) == room_infos_of(self@, self.rooms.len() as int),
    {
        let mut r: Vec<RoomInfo> = Vec::new();
        let mut i: usize = 0;
        while i < self.rooms.len()
            invariant
                i <= self.rooms.len(),
                rooms_view(r@) == room_infos_of(self@, i as int),
            decreases self.rooms.len() - i,
        {
            let info = self.room_info(&self.rooms[i]);
            r.push(info);
            assert(rooms_view(r@) =~= room_infos_of(self@, i + 1));
            i += 1;
        }
        r
    }

    pub(crate) fn players_info(&self, ids: &Vec<u32>) -> (r: Vec<PlayerInfo>)
        ensures
            players_view(r@) == infos_of(self@, ids@, ids.len() as int),
    {
        let mut r: Vec<PlayerInfo> = Vec::new();
        let mut i: usize = 0;
        while i < ids.len()
            invariant
                i <= ids.len(),
                players_view(r@) == infos_of(self@, ids@, i as int),
            decreases ids.len() - i,
        {
            match self.player_info(ids[i]) {
                Some(info) => {
                    r.push(info);
                },
                None => {},
            }
            assert(players_view(r@) =~= infos_of(self@, ids@, i + 1));
            i += 1;
        }
        r
    }

    /// The connected members of room `rid` other than `exclude`.
    pub(crate) fn audience(&self, rid: u32, exclude: Option<u32>) -> (to: Vec<u32>)
        ensures
            to@ == room_audience(self@, rid, exclude),
    {
        let mut to: Vec<u32> = Vec::new();
        match self.room_index(rid) {
            Some(ri) => {
                let ids = &self.rooms[ri].player_ids;
                let mut i: usize = 0;
                while i < ids.len()
                    invariant
                        i <= ids.len(),
                        ids@ == self@.rooms[ri as int].player_ids,
                        to@ == reachable(self@, ids@, exclude, i as int),
                    decreases ids.len() - i,
                {
                    let id = ids[i];
                    if exclude != Some(id) && self.player_index(id).is_some() {
                        to.push(id);
                    }
                    assert(to@ =~= reachable(self@, ids@, exclude, i + 1));
                    i += 1;
                }
            },
            None => {},
        }
        to
    }

    pub(crate) fn broadcast_room(&self, out: &mut Vec<Delivery>, rid: u32, msg: ServerMsg, exclude: Option<u32>)
        ensures
            deliveries_view(final(out)@) == deliveries_view(old(out)@) + broadcast(
                self@,
                rid,
                msg@,
                exclude,
            ),
    {
        let to = self.audience(rid, exclude);
        let ghost before = out@;
        out.push(Delivery { to, msg });
        assert(deliveries_view(out@) =~= deliveries_view(before) + broadcast(self@, rid, msg@, exclude));
    }

    pub(crate) fn send_to(&self, out: &mut Vec<Delivery>, pid: u32, msg: ServerMsg)
        ensures
            deliveries_view(final(out)@) == deliveries_view(old(out)@) + send_to(self@, pid, msg@),
    {
        let mut to: Vec<u32> = Vec::new();
        if self.player_index(pid).is_some() {
            to.push(pid);
        }
        assert(to@ =~= (if player_idx(self@, pid) >= 0 {
            seq![pid]
        } else {
            seq![]
        }));
        let ghost before = out@;
        out.push(Delivery { to, msg });
        assert(deliveries_view(out@) =~= deliveries_view(before) + send_to(self@, pid, msg@));
    }
}


// ── State updates ──────────────────────────────────────────────────

/// Two player lists with the same ids in the same places.
pub open spec fn same_ids(a: Seq<PlayerV>, b: Seq<PlayerV>) -> bool {
    a.len() == b.len() && forall|k: int| 0 <= k < a.len() ==> #[trigger] a[k].id == b[k].id
}

/// Lookups by id find the same place in player lists with the same ids.
pub proof fn lemma_same_ids(a: Seq<PlayerV>, b: Seq<PlayerV>, id: u32, i: int)
    requires
        same_ids(a, b),
    ensures
        player_from(a, id, i) == player_from(b, id, i),
    decreases a.len() - i,
{
    if 0 <= i < a.len() {
        assert(a[i].id == b[i].id);
        lemma_same_ids(a, b, id, i + 1);
    }
}

pub open spec fn with_player(s: ServerV, i: int, p: PlayerV) -> ServerV {
    ServerV { players: s.players.update(i, p), ..s }
}

pub open spec fn with_room(s: ServerV, i: int, r: RoomV) -> ServerV {
    ServerV { rooms: s.rooms.update(i, r), ..s }
}

pub open spec fn with_table(s: ServerV, i: int, t: TableV) -> ServerV {
    ServerV { tables: s.tables.update(i, t), ..s }
}

pub open spec fn without_table(s: ServerV, i: int) -> ServerV {
    ServerV { tables: s.tables.remove(i), ..s }
}

/// `ids` with every occurrence of `id` removed.
pub open spec fn without_id(ids: Seq<u32>, id: u32) -> Seq<u32>
    decreases ids.len(),
{
    if ids.len() == 0 {
        ids
    } else {
        without_id(ids.drop_last(), id) + if ids.last() == id {
            seq![]
        } else {
            seq![ids.last()]
        }
    }
}

/// The tables of all rooms but `rid`, in order.
pub open spec fn tables_outside(ts: Seq<TableV>, rid: u32) -> Seq<TableV>
    decreases ts.len(),
{
    if ts.len() == 0 {
        ts
    } else {
        tables_outside(ts.drop_last(), rid) + if ts.last().room_id == rid {
            seq![]
        } else {
            seq![ts.last()]
        }
    }
}

/// `s` without room `i` and its tables.
pub open spec fn without_room(s: ServerV, i: int) -> ServerV {
    ServerV {
        rooms: s.rooms.remove(i),
        tables: tables_outside(s.tables, s.rooms[i].id),
        ..s
    }
}

pub open spec fn system_chat(s: ServerV, rid: u32, body: Seq<char>) -> Seq<DeliveryV> {
    broadcast(s, rid, ServerMsgV::ChatMessage { sender: seq![], body, kind: ChatKind::System }, None)
}

pub(crate) fn clone_ids(v: &Vec<u32>) -> (r: Vec<u32>)
    ensures
        r@ == v@,
{
    let r = v.clone();
    assert(r@ =~= v@);
    r
}

pub(crate) fn remove_id(ids: &Vec<u32>, id: u32) -> (r: Vec<u32>)
    ensures
        r@ == without_id(ids@, id),
{
    let mut r: Vec<u32> = Vec::new();
    let mut i: usize = 0;
    while i < ids.len()
        invariant
            i <= ids.len(),
            r@ == without_id(ids@.take(i as int), id),
        decreases ids.len() - i,
    {
        if ids[i] != id {
            r.push(ids[i]);
        }
        assert(ids@.take(i + 1).drop_last() =~= ids@.take(i as int));
        assert(r@ =~= without_id(ids@.take(i + 1), id));
        i += 1;
    }
    assert(ids@.take(i as int) =~= ids@);
    r
}

impl ServerState {
    pub(crate) fn set_player_table(&mut self, i: usize, v: Option<u32>)
        requires
            i < old(self).players.len(),
        ensures
            final(self)@ == with_player(old(self)@, i as int, PlayerV { table_id: v, ..old(self)@.players[i as int] }),
            same_ids(old(self)@.players, final(self)@.players),
            final(self).players.len() == old(self).players.len(),
    {
        let mut p = self.players.remove(i);
        p.table_id = v;
        self.players.insert(i, p);
        assert(self@.players =~= with_player(old(self)@, i as int, PlayerV { table_id: v, ..old(self)@.players[i as int] }).players);
    }

    pub(crate) fn set_player_name(&mut self, i: usize, name: String)
        requires
            i < old(self).players.len(),
        ensures
            final(self)@ == with_player(old(self)@, i as int, PlayerV { name: name@, ..old(self)@.players[i as int] }),
            same_ids(old(self)@.players, final(self)@.players),
    {
        let mut p = self.players.remove(i);
        p.name = name;
        self.players.insert(i, p);
        assert(self@.players =~= with_player(old(self)@, i as int, PlayerV { name: name@, ..old(self)@.players[i as int] }).players);
    }

    pub(crate) fn set_player_room(&mut self, i: usize, v: Option<u32>)
        requires
            i < old(self).players.len(),
        ensures
            final(self)@ == with_player(old(self)@, i as int, PlayerV { room_id: v, ..old(self)@.players[i as int] }),
            same_ids(old(self)@.players, final(self)@.players),
            final(self).players.len() == old(self).players.len(),
    {
        let mut p = self.players.remove(i);
        p.room_id = v;
        self.players.insert(i, p);
        assert(self@.players =~= with_player(old(self)@, i as int, PlayerV { room_id: v, ..old(self)@.players[i as int] }).players);
    }

    pub(crate) fn put_table(&mut self, i: usize, t: GameTable)
        requires
            i < old(self).tables.len(),
        ensures
            final(self)@ == with_table(old(self)@, i as int, t@),
            final(self).tables.len() == old(self).tables.len(),
    {
        self.tables.remove(i);
        self.tables.insert(i, t);
        assert(self@.tables =~= with_table(old(self)@, i as int, t@).tables);
    }

    pub(crate) fn take_table(&mut self, i: usize) -> (t: GameTable)
        requires
            i < old(self).tables.len(),
        ensures
            t@ == old(self)@.tables[i as int],
            final(self)@ == without_table(old(self)@, i as int),
    {
        let t = self.tables.remove(i);
        assert(self@.tables =~= without_table(old(self)@, i as int).tables);
        t
    }

    pub(crate) fn put_room(&mut self, i: usize, r: Room)
        requires
            i < old(self).rooms.len(),
        ensures
            final(self)@ == with_room(old(self)@, i as int, r@),
            final(self).rooms.len() == old(self).rooms.len(),
    {
        self.rooms.remove(i);
        self.rooms.insert(i, r);
        assert(self@.rooms =~= with_room(old(self)@, i as int, r@).rooms);
    }

    pub(crate) fn take_room(&mut self, i: usize) -> (r: Room)
        requires
            i < old(self).rooms.len(),
        ensures
            r@ == old(self)@.rooms[i as int],
            final(self).rooms@ == old(self).rooms@.remove(i as int),
            final(self)@.rooms == old(self)@.rooms.remove(i as int),
            final(self)@.players == old(self)@.players,
            final(self)@.tables == old(self)@.tables,
            final(self).next_id == old(self).next_id,
    {
        let r = self.rooms.remove(i);
        assert(self@.rooms =~= old(self)@.rooms.remove(i as int));
        r
    }

    /// Removes room `i` together with its tables.
    pub(crate) fn drop_room(&mut self, i: usize)
        requires
            i < old(self).rooms.len(),
        ensures
            final(self)@ == without_room(old(self)@, i as int),
    {
        let rid = self.rooms[i].id;
        let _ = self.take_room(i);
        let mut all: Vec<GameTable> = Vec::new();
        std::mem::swap(&mut all, &mut self.tables);
        let ghost orig = all@.map_values(|t: GameTable| t@);
        assert(orig =~= old(self)@.tables);
        let mut kept: Vec<GameTable> = Vec::new();
        let ghost mut k: int = 0;
        while all.len() > 0
            invariant
                0 <= k <= orig.len(),
                rid == old(self)@.rooms[i as int].id,
                all@.map_values(|t: GameTable| t@) == orig.skip(k),
                kept@.map_values(|t: GameTable| t@) == tables_outside(orig.take(k), rid),
                self@.rooms == old(self)@.rooms.remove(i as int),
                self@.players == old(self)@.players,
                self.next_id == old(self).next_id,
            decreases all.len(),
        {
            let ghost before = all@;
            assert(before.map_values(|t: GameTable| t@).len() == before.len());
            assert(k < orig.len());
            let t = all.remove(0);
            assert(all@ =~= before.subrange(1, before.len() as int));
            assert(before.map_values(|t: GameTable| t@)[0] == orig.skip(k)[0]);
            assert(orig.take(k + 1).drop_last() =~= orig.take(k));
            let ghost kept_before = kept@;
            if t.room_id != rid {
                kept.push(t);
            }
            proof {
                let ghost k0 = k;
                k = k + 1;
                assert forall|j: int| 0 <= j < all@.len() implies all@.map_values(
                    |t: GameTable| t@,
                )[j] == orig.skip(k)[j] by {
                    assert(before.map_values(|t: GameTable| t@)[j + 1] == orig.skip(k0)[j + 1]);
                }
            }
            assert(all@.map_values(|t: GameTable| t@) =~= orig.skip(k));
            assert(kept@.map_values(|t: GameTable| t@) =~= tables_outside(orig.take(k), rid));
        }
        assert(orig.skip(k).len() == 0);
        assert(orig.take(k) =~= orig);
        self.tables = kept;
    }
}

} // verus!
