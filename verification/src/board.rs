use vstd::prelude::*;

use crate::bits::{group_bits, lemma_squares_finite, sq_in, square_bit, squares};
use crate::text::{chars_of, push_char, split_words, views_of, words};
use vstd::string::StringSliceAdditionalSpecFns;

verus! {

broadcast use group_bits;

pub const PAWN: usize = 0;
pub const KNIGHT: usize = 1;
pub const BISHOP: usize = 2;
pub const ROOK: usize = 3;
pub const QUEEN: usize = 4;
pub const KING: usize = 5;

pub const WHITE: usize = 0;
pub const BLACK: usize = 1;

#[derive(Clone, Copy, Debug, PartialEq, Eq, Structural)]
pub enum Color {
    White,
    Black,
}

/// A chess position held as bitboards: one board per piece type, one per color.
#[derive(Clone, Copy)]
pub struct Position {
    pub pieces: [u64; 6],
    pub colors: [u64; 2],
    pub side_to_move: Color,
    pub castling: u8,
    pub en_passant: Option<u8>,
}

// ── Geometry ───────────────────────────────────────────────────────

pub open spec fn rank_of(s: int) -> int {
    s / 8
}

pub open spec fn file_of(s: int) -> int {
    s % 8
}

pub open spec fn on_board(r: int, f: int) -> bool {
    0 <= r < 8 && 0 <= f < 8
}

pub open spec fn abs_diff(a: int, b: int) -> int {
    if a >= b {
        a - b
    } else {
        b - a
    }
}

/// The board index of colour `c` (the side's index into `colors`).
pub open spec fn color_idx(c: Color) -> int {
    match c {
        Color::White => 0,
        Color::Black => 1,
    }
}

pub open spec fn opposite(c: Color) -> Color {
    match c {
        Color::White => Color::Black,
        Color::Black => Color::White,
    }
}

pub open spec fn occupancy(p: Position) -> u64 {
    p.colors[0] | p.colors[1]
}

/// The lowest piece type whose board holds square `s`, looking from `pt` on.
pub open spec fn piece_type_from(p: Position, s: int, pt: int) -> Option<usize>
    decreases 6 - pt,
{
    if pt >= 6 || pt < 0 {
        None
    } else if sq_in(p.pieces[pt], s) {
        Some(pt as usize)
    } else {
        piece_type_from(p, s, pt + 1)
    }
}

/// What stands on square `s`: the lowest piece type holding it, with its colour,
/// when either colour board holds the square.
pub open spec fn spec_piece_at(p: Position, s: int) -> Option<(usize, Color)> {
    if !sq_in(occupancy(p), s) {
        None
    } else {
        let color = if sq_in(p.colors[0], s) {
            Color::White
        } else {
            Color::Black
        };
        match piece_type_from(p, s, 0) {
            Some(pt) => Some((pt, color)),
            None => None,
        }
    }
}

impl Position {
    /// A position with no pieces, White to move, no castling rights, no en passant square.
    pub fn empty() -> (p: Self)
        ensures
            p.pieces@ == seq![0u64, 0u64, 0u64, 0u64, 0u64, 0u64],
            p.colors@ == seq![0u64, 0u64],
            p.side_to_move == Color::White,
            p.castling == 0,
            p.en_passant.is_none(),
    {
        Position {
            pieces: [0; 6],
            colors: [0; 2],
            side_to_move: Color::White,
            castling: 0,
            en_passant: None,
        }
    }

    /// The piece type and colour on square `sq` (0-63), or `None` if it is empty.
    pub fn piece_at(&self, sq: u8) -> (r: Option<(usize, Color)>)
        requires
            sq < 64,
        ensures
            r == spec_piece_at(*self, sq as int),
    {
        let bit = square_bit(sq);
        let occupied = self.colors[WHITE] | self.colors[BLACK];
        if occupied & bit == 0 {
            assert(!sq_in(occupied, sq as int));
            return None;
        }
        let color = if self.colors[WHITE] & bit != 0 {
            Color::White
        } else {
            Color::Black
        };
        let mut piece_type: usize = 0;
        while piece_type < 6
            invariant
                0 <= piece_type <= 6,
                bit == 1u64 << (sq as u64),
                sq < 64,
                sq_in(occupancy(*self), sq as int),
                color == (if sq_in(self.colors[0], sq as int) {
                    Color::White
                } else {
                    Color::Black
                }),
                piece_type_from(*self, sq as int, 0) == piece_type_from(
                    *self,
                    sq as int,
                    piece_type as int,
                ),
            decreases 6 - piece_type,
        {
            if self.pieces[piece_type] & bit != 0 {
                return Some((piece_type, color));
            }
            piece_type += 1;
        }
        None
    }
}

/// Splits a square index into its (file, rank).
pub fn sq_to_file_rank(sq: u8) -> (r: (u8, u8))
    ensures
        r.0 == sq % 8,
        r.1 == sq / 8,
{
    (sq % 8, sq / 8)
}

/// Joins a file and a rank into a square index.
pub fn file_rank_to_sq(file: u8, rank: u8) -> (sq: u8)
    requires
        rank * 8 + file <= u8::MAX,
    ensures
        sq == rank * 8 + file,
{
    rank * 8 + file
}

// ── Moves ──────────────────────────────────────────────────────────

#[derive(Clone, Copy, Debug, PartialEq, Eq, Structural)]
pub struct Move {
    pub from: u8,
    pub to: u8,
    /// The piece type promoted to, if any.
    pub promotion: Option<usize>,
}

/// The piece type named by a UCI promotion letter.
pub open spec fn promo_of_byte(b: u8) -> Option<usize> {
    if b == 113 {
        Some(QUEEN)
    } else if b == 114 {
        Some(ROOK)
    } else if b == 98 {
        Some(BISHOP)
    } else if b == 110 {
        Some(KNIGHT)
    } else {
        None
    }
}

/// The move that UCI text with bytes `b` names, if any: two squares as file
/// letter and rank digit each, then an optional promotion letter; bytes past
/// the fifth are ignored, and an unknown fifth byte means no promotion.
pub open spec fn spec_from_uci(b: Seq<u8>) -> Option<Move> {
    if b.len() < 4 {
        None
    } else {
        let ff = b[0] as int - 97;
        let fr = b[1] as int - 49;
        let tf = b[2] as int - 97;
        let tr = b[3] as int - 49;
        if !(0 <= ff < 8 && 0 <= fr < 8 && 0 <= tf < 8 && 0 <= tr < 8) {
            None
        } else {
            Some(
                Move {
                    from: (fr * 8 + ff) as u8,
                    to: (tr * 8 + tf) as u8,
                    promotion: if b.len() > 4 {
                        promo_of_byte(b[4])
                    } else {
                        None
                    },
                },
            )
        }
    }
}

pub open spec fn promo_suffix(p: Option<usize>) -> Seq<char> {
    match p {
        Some(pt) => if pt == QUEEN {
            seq!['q']
        } else if pt == ROOK {
            seq!['r']
        } else if pt == BISHOP {
            seq!['b']
        } else if pt == KNIGHT {
            seq!['n']
        } else {
            seq![]
        },
        None => seq![],
    }
}

/// The UCI text of a move: file letter and rank digit of each square, then the
/// promotion letter for a queen, rook, bishop or knight promotion.
pub open spec fn spec_to_uci(m: Move) -> Seq<char> {
    seq![
        ((m.from % 8) + 97) as char,
        ((m.from / 8) + 49) as char,
        ((m.to % 8) + 97) as char,
        ((m.to / 8) + 49) as char,
    ] + promo_suffix(m.promotion)
}

impl Move {
    pub fn new(from: u8, to: u8) -> (m: Self)
        ensures
            m == (Move { from, to, promotion: None }),
    {
        Move { from, to, promotion: None }
    }

    pub fn with_promotion(from: u8, to: u8, promo: usize) -> (m: Self)
        ensures
            m == (Move { from, to, promotion: Some(promo) }),
    {
        Move { from, to, promotion: Some(promo) }
    }

    /// Parses UCI text such as "e2e4" or "a7a8q".
    pub fn from_uci(s: &str) -> (r: Option<Self>)
        ensures
            r == spec_from_uci(s.spec_bytes()),
    {
        let bytes = s.as_bytes();
        if bytes.len() < 4 {
            return None;
        }
        let b0 = bytes[0];
        let b1 = bytes[1];
        let b2 = bytes[2];
        let b3 = bytes[3];
        if b0 < 97 || b0 > 104 || b1 < 49 || b1 > 56 || b2 < 97 || b2 > 104 || b3 < 49 || b3
            > 56 {
            return None;
        }
        let from = (b1 - 49) * 8 + (b0 - 97);
        let to = (b3 - 49) * 8 + (b2 - 97);
        let promotion = if bytes.len() > 4 {
            let b4 = bytes[4];
            if b4 == 113 {
                Some(QUEEN)
            } else if b4 == 114 {
                Some(ROOK)
            } else if b4 == 98 {
                Some(BISHOP)
            } else if b4 == 110 {
                Some(KNIGHT)
            } else {
                None
            }
        } else {
            None
        };
        Some(Move { from, to, promotion })
    }

    /// The move in UCI notation.
    pub fn to_uci(&self) -> (s: String)
        ensures
            s@ == spec_to_uci(*self),
    {
        let mut s = String::new();
        push_char(&mut s, ((self.from % 8) + 97) as char);
        push_char(&mut s, ((self.from / 8) + 49) as char);
        push_char(&mut s, ((self.to % 8) + 97) as char);
        push_char(&mut s, ((self.to / 8) + 49) as char);
        match self.promotion {
            Some(pt) => {
                if pt == QUEEN {
                    push_char(&mut s, 'q');
                } else if pt == ROOK {
                    push_char(&mut s, 'r');
                } else if pt == BISHOP {
                    push_char(&mut s, 'b');
                } else if pt == KNIGHT {
                    push_char(&mut s, 'n');
                }
            },
            None => {},
        }
        assert(s@ =~= spec_to_uci(*self));
        s
    }
}


// ── Attack Tables ──────────────────────────────────────────────────

/// A knight on `s` attacks `t`: one rank and two files apart, or two ranks and one file.
pub open spec fn knight_step(s: int, t: int) -> bool {
    let dr = abs_diff(rank_of(t), rank_of(s));
    let df = abs_diff(file_of(t), file_of(s));
    (dr == 1 && df == 2) || (dr == 2 && df == 1)
}

/// A king on `s` attacks `t`: a different square at most one rank and one file away.
pub open spec fn king_step(s: int, t: int) -> bool {
    let dr = abs_diff(rank_of(t), rank_of(s));
    let df = abs_diff(file_of(t), file_of(s));
    dr <= 1 && df <= 1 && !(dr == 0 && df == 0)
}

/// A pawn of colour `c` on `s` attacks `t`: one rank forward, one file aside.
pub open spec fn pawn_step(s: int, c: Color, t: int) -> bool {
    let dir = if c == Color::White {
        1int
    } else {
        -1int
    };
    rank_of(t) == rank_of(s) + dir && abs_diff(file_of(t), file_of(s)) == 1
}

/// Adds the square at rank `r`, file `f` to `b` when it lies on the board.
fn add_on_board(b: u64, r: i8, f: i8) -> (res: u64)
    ensures
        forall|t: int|
            #[trigger] sq_in(res, t) == (sq_in(b, t) || (on_board(r as int, f as int) && t == r
                * 8 + f)),
{
    if r >= 0 && r < 8 && f >= 0 && f < 8 {
        let idx: u8 = (r as u8) * 8 + (f as u8);
        b | square_bit(idx)
    } else {
        b
    }
}

/// Knight attack bitboard for a given square.
pub fn knight_attacks(sq: u8) -> (a: u64)
    ensures
        forall|t: int| #[trigger] sq_in(a, t) == (0 <= t < 64 && knight_step(sq as int, t)),
{
    let r = (sq / 8) as i8;
    let f = (sq % 8) as i8;
    let mut attacks = 0u64;
    attacks = add_on_board(attacks, r - 2, f - 1);
    attacks = add_on_board(attacks, r - 2, f + 1);
    attacks = add_on_board(attacks, r - 1, f - 2);
    attacks = add_on_board(attacks, r - 1, f + 2);
    attacks = add_on_board(attacks, r + 1, f - 2);
    attacks = add_on_board(attacks, r + 1, f + 2);
    attacks = add_on_board(attacks, r + 2, f - 1);
    attacks = add_on_board(attacks, r + 2, f + 1);
    attacks
}

/// King attack bitboard for a given square.
pub fn king_attacks(sq: u8) -> (a: u64)
    ensures
        forall|t: int| #[trigger] sq_in(a, t) == (0 <= t < 64 && king_step(sq as int, t)),
{
    let r = (sq / 8) as i8;
    let f = (sq % 8) as i8;
    let mut attacks = 0u64;
    attacks = add_on_board(attacks, r - 1, f - 1);
    attacks = add_on_board(attacks, r - 1, f);
    attacks = add_on_board(attacks, r - 1, f + 1);
    attacks = add_on_board(attacks, r, f - 1);
    attacks = add_on_board(attacks, r, f + 1);
    attacks = add_on_board(attacks, r + 1, f - 1);
    attacks = add_on_board(attacks, r + 1, f);
    attacks = add_on_board(attacks, r + 1, f + 1);
    attacks
}

/// Pawn attacks (captures only, not pushes).
pub fn pawn_attacks(sq: u8, color: Color) -> (a: u64)
    ensures
        forall|t: int| #[trigger] sq_in(a, t) == (0 <= t < 64 && pawn_step(sq as int, color, t)),
{
    let f = (sq % 8) as i8;
    let r = (sq / 8) as i8;
    let dir: i8 = if color == Color::White {
        1
    } else {
        -1
    };
    let nr = r + dir;
    let mut attacks = 0u64;
    if nr >= 0 && nr < 8 {
        if f > 0 {
            attacks = add_on_board(attacks, nr, f - 1);
        }
        if f < 7 {
            attacks = add_on_board(attacks, nr, f + 1);
        }
    }
    attacks
}


/// The coordinate reached from `x` after `k` steps in direction `d` (-1, 0 or 1).
pub open spec fn step(x: int, d: int, k: int) -> int {
    if d > 0 {
        x + k
    } else if d < 0 {
        x - k
    } else {
        x
    }
}

/// How many steps in direction (`dr`, `df`) lead from `s` to `t`, read off the moving coordinate.
pub open spec fn ray_dist(s: int, dr: int, df: int, t: int) -> int {
    if dr > 0 {
        rank_of(t) - rank_of(s)
    } else if dr < 0 {
        rank_of(s) - rank_of(t)
    } else if df > 0 {
        file_of(t) - file_of(s)
    } else {
        file_of(s) - file_of(t)
    }
}

/// The square `k` steps from `s` in direction (`dr`, `df`).
pub open spec fn ray_square(s: int, dr: int, df: int, k: int) -> int {
    step(rank_of(s), dr, k) * 8 + step(file_of(s), df, k)
}

/// A slider on `s` moving in direction (`dr`, `df`) attacks `t`: `t` lies on the
/// board along that line, the first step already lands on the board, and no
/// square of `occ` lies strictly between the two.
pub open spec fn ray_target(s: int, dr: int, df: int, occ: u64, t: int) -> bool {
    let k = ray_dist(s, dr, df, t);
    &&& 0 <= t < 64
    &&& k >= 1
    &&& rank_of(t) == step(rank_of(s), dr, k)
    &&& file_of(t) == step(file_of(s), df, k)
    &&& on_board(step(rank_of(s), dr, 1), step(file_of(s), df, 1))
    &&& forall|j: int| 1 <= j < k ==> !#[trigger] sq_in(occ, ray_square(s, dr, df, j))
}

pub open spec fn bishop_target(s: int, occ: u64, t: int) -> bool {
    ||| ray_target(s, -1, -1, occ, t)
    ||| ray_target(s, -1, 1, occ, t)
    ||| ray_target(s, 1, -1, occ, t)
    ||| ray_target(s, 1, 1, occ, t)
}

pub open spec fn rook_target(s: int, occ: u64, t: int) -> bool {
    ||| ray_target(s, -1, 0, occ, t)
    ||| ray_target(s, 1, 0, occ, t)
    ||| ray_target(s, 0, -1, occ, t)
    ||| ray_target(s, 0, 1, occ, t)
}

/// Sliding piece ray in one direction, stopping at blockers.
fn ray(sq: u8, dr: i8, df: i8, occupied: u64) -> (attacks: u64)
    requires
        -1 <= dr <= 1,
        -1 <= df <= 1,
        !(dr == 0 && df == 0),
    ensures
        forall|t: int| #[trigger]
            sq_in(attacks, t) == ray_target(sq as int, dr as int, df as int, occupied, t),
{
    let ghost s = sq as int;
    let ghost r0 = rank_of(s);
    let ghost f0 = file_of(s);
    let mut attacks = 0u64;
    let mut r: i8 = (sq / 8) as i8 + dr;
    let mut f: i8 = (sq % 8) as i8 + df;
    let mut blocked = false;
    let ghost mut k: int = 1;
    while !blocked && r >= 0 && r < 8 && f >= 0 && f < 8
        invariant
            -1 <= dr <= 1,
            -1 <= df <= 1,
            !(dr == 0 && df == 0),
            s == sq as int,
            r0 == rank_of(s),
            f0 == file_of(s),
            0 <= r0 < 32,
            0 <= f0 < 8,
            k >= 1,
            r as int == step(r0, dr as int, k),
            f as int == step(f0, df as int, k),
            k > 1 ==> on_board(step(r0, dr as int, 1), step(f0, df as int, 1)),
            forall|j: int|
                1 <= j < k ==> on_board(step(r0, dr as int, j), step(f0, df as int, j)),
            !blocked ==> forall|j: int|
                1 <= j < k ==> !#[trigger] sq_in(occupied, ray_square(s, dr as int, df as int, j)),
            blocked ==> k >= 2 && sq_in(occupied, ray_square(s, dr as int, df as int, k - 1))
                && forall|j: int|
                1 <= j < k - 1 ==> !#[trigger] sq_in(
                    occupied,
                    ray_square(s, dr as int, df as int, j),
                ),
            forall|t: int| #[trigger]
                sq_in(attacks, t) == (0 <= t < 64 && ray_dist(s, dr as int, df as int, t) >= 1
                    && ray_dist(s, dr as int, df as int, t) < k && rank_of(t) == step(
                    r0,
                    dr as int,
                    ray_dist(s, dr as int, df as int, t),
                ) && file_of(t) == step(f0, df as int, ray_dist(s, dr as int, df as int, t))
                    && on_board(step(r0, dr as int, 1), step(f0, df as int, 1))),
        decreases (if dr > 0 {
            8 - r
        } else if dr < 0 {
            r + 1
        } else if df > 0 {
            8 - f
        } else {
            f + 1
        }),
    {
        let idx: u8 = (r as u8) * 8 + (f as u8);
        assert(idx as int == ray_square(s, dr as int, df as int, k));
        let bit = square_bit(idx);
        attacks = attacks | bit;
        if occupied & bit != 0 {
            blocked = true;
        }
        r = r + dr;
        f = f + df;
        proof {
            assert forall|t: int| #[trigger]
                sq_in(attacks, t) == (0 <= t < 64 && ray_dist(s, dr as int, df as int, t) >= 1
                    && ray_dist(s, dr as int, df as int, t) < k + 1 && rank_of(t) == step(
                    r0,
                    dr as int,
                    ray_dist(s, dr as int, df as int, t),
                ) && file_of(t) == step(f0, df as int, ray_dist(s, dr as int, df as int, t))
                    && on_board(step(r0, dr as int, 1), step(f0, df as int, 1))) by {
                if 0 <= t < 64 && t == idx {
                    assert(rank_of(t) == step(r0, dr as int, k));
                    assert(file_of(t) == step(f0, df as int, k));
                }
            }
            k = k + 1;
        }
    }
    proof {
        assert forall|t: int| #[trigger]
            sq_in(attacks, t) == ray_target(s, dr as int, df as int, occupied, t) by {
            let d = ray_dist(s, dr as int, df as int, t);
            if blocked {
                if 0 <= t < 64 && d >= k {
                    assert(1 <= k - 1 < d);
                    assert(sq_in(occupied, ray_square(s, dr as int, df as int, k - 1)));
                }
            } else {
                if 0 <= t < 64 && d >= k && rank_of(t) == step(r0, dr as int, d) && file_of(t)
                    == step(f0, df as int, d) {
                    assert(!on_board(step(r0, dr as int, k), step(f0, df as int, k)));
                }
            }
        }
    }
    attacks
}

/// Bishop attacks (diagonals).
pub fn bishop_attacks(sq: u8, occupied: u64) -> (a: u64)
    ensures
        forall|t: int| #[trigger] sq_in(a, t) == bishop_target(sq as int, occupied, t),
{
    ray(sq, -1, -1, occupied) | ray(sq, -1, 1, occupied) | ray(sq, 1, -1, occupied) | ray(
        sq,
        1,
        1,
        occupied,
    )
}

/// Rook attacks (ranks and files).
pub fn rook_attacks(sq: u8, occupied: u64) -> (a: u64)
    ensures
        forall|t: int| #[trigger] sq_in(a, t) == rook_target(sq as int, occupied, t),
{
    ray(sq, -1, 0, occupied) | ray(sq, 1, 0, occupied) | ray(sq, 0, -1, occupied) | ray(
        sq,
        0,
        1,
        occupied,
    )
}

/// Queen attacks (rook + bishop).
pub fn queen_attacks(sq: u8, occupied: u64) -> (a: u64)
    ensures
        forall|t: int| #[trigger]
            sq_in(a, t) == (rook_target(sq as int, occupied, t) || bishop_target(
                sq as int,
                occupied,
                t,
            )),
{
    rook_attacks(sq, occupied) | bishop_attacks(sq, occupied)
}


/// The lowest square of `b` at or above `s`, or 64 when there is none.
pub open spec fn first_sq_from(b: u64, s: int) -> int
    decreases 64 - s,
{
    if s >= 64 || s < 0 {
        64
    } else if sq_in(b, s) {
        s
    } else {
        first_sq_from(b, s + 1)
    }
}

/// The lowest square of `b`, or 64 when `b` is empty.
pub open spec fn lowest_sq(b: u64) -> int {
    first_sq_from(b, 0)
}

proof fn lemma_first_sq_from(b: u64, s: int)
    requires
        0 <= s <= 64,
    ensures
        s <= first_sq_from(b, s) <= 64,
        first_sq_from(b, s) < 64 ==> sq_in(b, first_sq_from(b, s)),
        forall|u: int| s <= u < first_sq_from(b, s) ==> !#[trigger] sq_in(b, u),
    decreases 64 - s,
{
    if s < 64 && !sq_in(b, s) {
        lemma_first_sq_from(b, s + 1);
    }
}

/// The lowest square of a bitboard, 64 when it is empty.
fn lowest_square(b: u64) -> (s: u8)
    ensures
        s as int == lowest_sq(b),
        s <= 64,
        s < 64 ==> sq_in(b, s as int),
        forall|u: int| 0 <= u < s ==> !#[trigger] sq_in(b, u),
{
    proof {
        lemma_first_sq_from(b, 0);
    }
    let mut s: u8 = 0;
    while s < 64
        invariant
            s <= 64,
            first_sq_from(b, s as int) == lowest_sq(b),
            forall|u: int| 0 <= u < s ==> !#[trigger] sq_in(b, u),
        decreases 64 - s,
    {
        if b & square_bit(s) != 0 {
            return s;
        }
        s += 1;
    }
    s
}

/// The square of the king of colour `c` that the position uses: the lowest one, or 64.
pub open spec fn king_square(p: Position, c: Color) -> int {
    lowest_sq(p.pieces[KING as int] & p.colors[color_idx(c)])
}

/// A non-king piece of colour `c` on square `s` attacks `t`.
pub open spec fn attacks_from(p: Position, c: Color, s: int, t: int) -> bool {
    let us = p.colors[color_idx(c)];
    let occ = occupancy(p);
    ||| sq_in(p.pieces[PAWN as int] & us, s) && pawn_step(s, c, t)
    ||| sq_in(p.pieces[KNIGHT as int] & us, s) && knight_step(s, t)
    ||| sq_in(p.pieces[BISHOP as int] & us, s) && bishop_target(s, occ, t)
    ||| sq_in(p.pieces[ROOK as int] & us, s) && rook_target(s, occ, t)
    ||| sq_in(p.pieces[QUEEN as int] & us, s) && (rook_target(s, occ, t) || bishop_target(s, occ, t))
}

/// Square `t` is attacked by side `c`: by one of its pawns, knights, bishops,
/// rooks or queens, or by its king (the lowest king square, when it has several).
pub open spec fn spec_attacked(p: Position, c: Color, t: int) -> bool {
    &&& 0 <= t < 64
    &&& {
        ||| exists|s: int| 0 <= s < 64 && #[trigger] attacks_from(p, c, s, t)
        ||| king_square(p, c) < 64 && king_step(king_square(p, c), t)
    }
}

/// All squares attacked by a given side.
pub fn attacked_by(pos: &Position, color: Color) -> (a: u64)
    ensures
        forall|t: int| #[trigger] sq_in(a, t) == spec_attacked(*pos, color, t),
{
    let us = if color == Color::White {
        WHITE
    } else {
        BLACK
    };
    assert(us as int == color_idx(color));
    let occupied = pos.colors[WHITE] | pos.colors[BLACK];
    let own = pos.colors[us];
    let pawns = pos.pieces[PAWN] & own;
    let knights = pos.pieces[KNIGHT] & own;
    let bishops = pos.pieces[BISHOP] & own;
    let rooks = pos.pieces[ROOK] & own;
    let queens = pos.pieces[QUEEN] & own;
    let mut attacks = 0u64;
    let mut sq: u8 = 0;
    while sq < 64
        invariant
            sq <= 64,
            us as int == color_idx(color),
            occupied == occupancy(*pos),
            own == pos.colors[us as int],
            pawns == pos.pieces[PAWN as int] & own,
            knights == pos.pieces[KNIGHT as int] & own,
            bishops == pos.pieces[BISHOP as int] & own,
            rooks == pos.pieces[ROOK as int] & own,
            queens == pos.pieces[QUEEN as int] & own,
            forall|t: int| #[trigger]
                sq_in(attacks, t) == (0 <= t < 64 && exists|s: int|
                    0 <= s < sq && #[trigger] attacks_from(*pos, color, s, t)),
        decreases 64 - sq,
    {
        let bit = square_bit(sq);
        let mut here = 0u64;
        if pawns & bit != 0 {
            here = here | pawn_attacks(sq, color);
        }
        if knights & bit != 0 {
            here = here | knight_attacks(sq);
        }
        if bishops & bit != 0 {
            here = here | bishop_attacks(sq, occupied);
        }
        if rooks & bit != 0 {
            here = here | rook_attacks(sq, occupied);
        }
        if queens & bit != 0 {
            here = here | queen_attacks(sq, occupied);
        }
        assert forall|t: int| #[trigger]
            sq_in(here, t) == (0 <= t < 64 && attacks_from(*pos, color, sq as int, t)) by {}
        let ghost old_attacks = attacks;
        attacks = attacks | here;
        assert forall|t: int| #[trigger]
            sq_in(attacks, t) == (0 <= t < 64 && exists|s: int|
                0 <= s < sq + 1 && #[trigger] attacks_from(*pos, color, s, t)) by {
            if sq_in(attacks, t) {
                if sq_in(old_attacks, t) {
                    let w = choose|s: int| 0 <= s < sq && #[trigger] attacks_from(*pos, color, s, t);
                    assert(0 <= w < sq + 1 && attacks_from(*pos, color, w, t));
                } else {
                    assert(attacks_from(*pos, color, sq as int, t));
                }
            }
            if 0 <= t < 64 && exists|s: int|
                0 <= s < sq + 1 && #[trigger] attacks_from(*pos, color, s, t) {
                let w = choose|s: int| 0 <= s < sq + 1 && #[trigger] attacks_from(*pos, color, s, t);
                if w < sq {
                    assert(sq_in(old_attacks, t));
                } else {
                    assert(sq_in(here, t));
                }
            }
        }
        sq += 1;
    }
    let king_sq = lowest_square(pos.pieces[KING] & own);
    if king_sq < 64 {
        attacks = attacks | king_attacks(king_sq);
    }
    attacks
}


// ── Making moves ───────────────────────────────────────────────────

/// The moves that `make_move` accepts: both squares on the board and a promotion,
/// if any, naming one of the six piece types.
pub open spec fn move_in_range(m: Move) -> bool {
    &&& m.from < 64
    &&& m.to < 64
    &&& m.promotion matches Some(pt) ==> pt < 6
}

/// The type of the piece that `m` moves: the lowest type on its origin square,
/// a pawn when the square holds none.
pub open spec fn moved_type(p: Position, m: Move) -> usize {
    match piece_type_from(p, m.from as int, 0) {
        Some(pt) => pt,
        None => PAWN,
    }
}

pub open spec fn bit_of(s: int) -> u64 {
    1u64 << (s as u64)
}

/// The square of the pawn taken en passant by a move to `to` with `side` moving,
/// or -1 when the move takes none (or that square would lie off the board).
pub open spec fn ep_victim(p: Position, m: Move) -> int {
    if moved_type(p, m) == PAWN && p.en_passant == Some(m.to) {
        let v = if p.side_to_move == Color::White {
            m.to - 8
        } else {
            m.to + 8
        };
        if 0 <= v < 64 {
            v
        } else {
            -1
        }
    } else {
        -1
    }
}

/// The rook move (from, to) that accompanies a king move of two files, or (-1, -1).
pub open spec fn castle_rook(p: Position, m: Move) -> (int, int) {
    if moved_type(p, m) == KING && m.to == m.from + 2 && m.from + 3 < 64 {
        (m.from + 3, m.from + 1)
    } else if moved_type(p, m) == KING && m.to + 2 == m.from && m.from >= 4 {
        (m.from - 4, m.from - 1)
    } else {
        (-1, -1)
    }
}

/// Piece board `i` after `m` is played.
pub open spec fn pieces_after(p: Position, m: Move, i: int) -> u64 {
    let us = color_idx(p.side_to_move);
    let them = 1 - us;
    let pt = moved_type(p, m);
    let from_bit = bit_of(m.from as int);
    let to_bit = bit_of(m.to as int);
    let b0 = p.pieces[i];
    // the captured piece leaves the target square
    let b1 = if sq_in(p.colors[them], m.to as int) {
        b0 & !to_bit
    } else {
        b0
    };
    // the mover leaves its square
    let b2 = if i == pt {
        b1 & !from_bit
    } else {
        b1
    };
    // and arrives, promoted or not
    let arriving = match m.promotion {
        Some(pr) => pr as int,
        None => pt as int,
    };
    let b3 = if i == arriving {
        b2 | to_bit
    } else {
        b2
    };
    // a pawn taken en passant
    let v = ep_victim(p, m);
    let b4 = if v >= 0 && i == PAWN {
        b3 & !bit_of(v)
    } else {
        b3
    };
    // the castling rook
    let (rf, rt) = castle_rook(p, m);
    if rf >= 0 && i == ROOK {
        (b4 & !bit_of(rf)) | bit_of(rt)
    } else {
        b4
    }
}

/// Colour board `c` after `m` is played.
pub open spec fn colors_after(p: Position, m: Move, c: int) -> u64 {
    let us = color_idx(p.side_to_move);
    let from_bit = bit_of(m.from as int);
    let to_bit = bit_of(m.to as int);
    let b0 = p.colors[c];
    let v = ep_victim(p, m);
    let (rf, rt) = castle_rook(p, m);
    if c == us {
        let b1 = (b0 & !from_bit) | to_bit;
        if rf >= 0 {
            (b1 & !bit_of(rf)) | bit_of(rt)
        } else {
            b1
        }
    } else {
        let b1 = if sq_in(b0, m.to as int) {
            b0 & !to_bit
        } else {
            b0
        };
        if v >= 0 {
            b1 & !bit_of(v)
        } else {
            b1
        }
    }
}

/// Castling rights after `m`: a king move drops both of its side's rights; a move
/// from or to a corner drops the right of the rook that starts there.
pub open spec fn castling_after(p: Position, m: Move) -> u8 {
    let c0 = p.castling;
    let c1 = if moved_type(p, m) == KING {
        if p.side_to_move == Color::White {
            c0 & !3u8
        } else {
            c0 & !12u8
        }
    } else {
        c0
    };
    let c2 = if m.from == 0 || m.to == 0 {
        c1 & !2u8
    } else {
        c1
    };
    let c3 = if m.from == 7 || m.to == 7 {
        c2 & !1u8
    } else {
        c2
    };
    let c4 = if m.from == 56 || m.to == 56 {
        c3 & !8u8
    } else {
        c3
    };
    if m.from == 63 || m.to == 63 {
        c4 & !4u8
    } else {
        c4
    }
}

/// The en passant square after `m`: the square passed over by a pawn's double step.
pub open spec fn en_passant_after(p: Position, m: Move) -> Option<u8> {
    if moved_type(p, m) == PAWN && abs_diff(m.to as int, m.from as int) == 16 {
        Some(((m.from + m.to) / 2) as u8)
    } else {
        None
    }
}

/// The position after `m` is played, legal or not.
pub open spec fn spec_make_move(p: Position, m: Move) -> Position {
    Position {
        pieces: [
            pieces_after(p, m, 0),
            pieces_after(p, m, 1),
            pieces_after(p, m, 2),
            pieces_after(p, m, 3),
            pieces_after(p, m, 4),
            pieces_after(p, m, 5),
        ],
        colors: [colors_after(p, m, 0), colors_after(p, m, 1)],
        side_to_move: opposite(p.side_to_move),
        castling: castling_after(p, m),
        en_passant: en_passant_after(p, m),
    }
}

/// Side `c` is in check: the square of its king is attacked by the other side.
pub open spec fn spec_in_check(p: Position, c: Color) -> bool {
    let k = king_square(p, c);
    k < 64 && spec_attacked(p, opposite(c), k)
}

impl Position {
    fn color_index(&self) -> (i: usize)
        ensures
            i as int == color_idx(self.side_to_move),
    {
        if self.side_to_move == Color::White {
            WHITE
        } else {
            BLACK
        }
    }

    fn enemy_index(&self) -> (i: usize)
        ensures
            i as int == 1 - color_idx(self.side_to_move),
    {
        if self.side_to_move == Color::White {
            BLACK
        } else {
            WHITE
        }
    }

    fn occupied(&self) -> (o: u64)
        ensures
            o == occupancy(*self),
    {
        self.colors[WHITE] | self.colors[BLACK]
    }

    /// Is the given side's king in check?
    pub fn in_check(&self, color: Color) -> (r: bool)
        ensures
            r == spec_in_check(*self, color),
    {
        let us = if color == Color::White {
            WHITE
        } else {
            BLACK
        };
        assert(us as int == color_idx(color));
        let king_sq = lowest_square(self.pieces[KING] & self.colors[us]);
        if king_sq >= 64 {
            return false;
        }
        let enemy = if color == Color::White {
            Color::Black
        } else {
            Color::White
        };
        assert(enemy == opposite(color));
        assert(king_sq as int == king_square(*self, color));
        let att = attacked_by(self, enemy);
        let r = att & square_bit(king_sq) != 0;
        assert(r == sq_in(att, king_sq as int));
        r
    }

    /// The piece type on `sq`, a pawn when none stands there.
    fn moved_piece(&self, mv: Move) -> (pt: usize)
        requires
            mv.from < 64,
        ensures
            pt == moved_type(*self, mv),
            pt < 6,
    {
        match self.piece_at_type(mv.from) {
            Some(pt) => pt,
            None => PAWN,
        }
    }

    fn piece_at_type(&self, sq: u8) -> (r: Option<usize>)
        requires
            sq < 64,
        ensures
            r == piece_type_from(*self, sq as int, 0),
            r matches Some(pt) ==> pt < 6,
    {
        let bit = square_bit(sq);
        let mut pt: usize = 0;
        while pt < 6
            invariant
                0 <= pt <= 6,
                bit == 1u64 << (sq as u64),
                sq < 64,
                piece_type_from(*self, sq as int, 0) == piece_type_from(*self, sq as int, pt as int),
            decreases 6 - pt,
        {
            if self.pieces[pt] & bit != 0 {
                return Some(pt);
            }
            pt += 1;
        }
        None
    }

    /// The square of the pawn taken en passant by `mv`, or -1.
    fn ep_victim_of(&self, mv: Move, piece_type: usize) -> (v: i8)
        requires
            move_in_range(mv),
            piece_type == moved_type(*self, mv),
        ensures
            v as int == ep_victim(*self, mv),
    {
        if piece_type == PAWN && self.en_passant == Some(mv.to) {
            let white = self.side_to_move == Color::White;
            if white && mv.to >= 8 {
                (mv.to - 8) as i8
            } else if !white && mv.to < 56 {
                (mv.to + 8) as i8
            } else {
                -1
            }
        } else {
            -1
        }
    }

    /// The rook move of a castling king move, or (-1, -1).
    fn castle_rook_of(&self, mv: Move, piece_type: usize) -> (r: (i8, i8))
        requires
            move_in_range(mv),
            piece_type == moved_type(*self, mv),
        ensures
            (r.0 as int, r.1 as int) == castle_rook(*self, mv),
    {
        if piece_type == KING && mv.to == mv.from + 2 && mv.from + 3 < 64 {
            ((mv.from + 3) as i8, (mv.from + 1) as i8)
        } else if piece_type == KING && mv.to + 2 == mv.from && mv.from >= 4 {
            ((mv.from - 4) as i8, (mv.from - 1) as i8)
        } else {
            (-1, -1)
        }
    }

    /// Piece board `i` after `mv`.
    fn piece_board_after(&self, mv: Move, i: usize, piece_type: usize, v: i8, rook: (i8, i8)) -> (b: u64)
        requires
            move_in_range(mv),
            i < 6,
            piece_type == moved_type(*self, mv),
            v as int == ep_victim(*self, mv),
            (rook.0 as int, rook.1 as int) == castle_rook(*self, mv),
        ensures
            b == pieces_after(*self, mv, i as int),
    {
        let them = self.enemy_index();
        let to_bit = square_bit(mv.to);
        let from_bit = square_bit(mv.from);
        let mut b = self.pieces[i];
        if self.colors[them] & to_bit != 0 {
            b = b & !to_bit;
        }
        if i == piece_type {
            b = b & !from_bit;
        }
        let arriving = match mv.promotion {
            Some(pr) => pr,
            None => piece_type,
        };
        if i == arriving {
            b = b | to_bit;
        }
        if v >= 0 && i == PAWN {
            b = b & !square_bit(v as u8);
        }
        if rook.0 >= 0 && i == ROOK {
            b = (b & !square_bit(rook.0 as u8)) | square_bit(rook.1 as u8);
        }
        b
    }

    /// Colour board `c` after `mv`.
    fn color_board_after(&self, mv: Move, c: usize, v: i8, rook: (i8, i8)) -> (b: u64)
        requires
            move_in_range(mv),
            c < 2,
            v as int == ep_victim(*self, mv),
            (rook.0 as int, rook.1 as int) == castle_rook(*self, mv),
        ensures
            b == colors_after(*self, mv, c as int),
    {
        let us = self.color_index();
        let to_bit = square_bit(mv.to);
        let from_bit = square_bit(mv.from);
        let mut b = self.colors[c];
        if c == us {
            b = (b & !from_bit) | to_bit;
            if rook.0 >= 0 {
                b = (b & !square_bit(rook.0 as u8)) | square_bit(rook.1 as u8);
            }
        } else {
            if b & to_bit != 0 {
                b = b & !to_bit;
            }
            if v >= 0 {
                b = b & !square_bit(v as u8);
            }
        }
        b
    }

    /// Apply a move and return the new position. Does not check legality.
    pub fn make_move(&self, mv: Move) -> (r: Self)
        requires
            move_in_range(mv),
        ensures
            r == spec_make_move(*self, mv),
    {
        let piece_type = self.moved_piece(mv);
        let v = self.ep_victim_of(mv, piece_type);
        let rook = self.castle_rook_of(mv, piece_type);
        let pieces = [
            self.piece_board_after(mv, 0, piece_type, v, rook),
            self.piece_board_after(mv, 1, piece_type, v, rook),
            self.piece_board_after(mv, 2, piece_type, v, rook),
            self.piece_board_after(mv, 3, piece_type, v, rook),
            self.piece_board_after(mv, 4, piece_type, v, rook),
            self.piece_board_after(mv, 5, piece_type, v, rook),
        ];
        let colors = [
            self.color_board_after(mv, WHITE, v, rook),
            self.color_board_after(mv, BLACK, v, rook),
        ];
        let mut pos = Position {
            pieces,
            colors,
            side_to_move: self.side_to_move,
            castling: self.castling,
            en_passant: None,
        };
        // En passant square
        pos.en_passant = None;
        if piece_type == PAWN {
            let diff: u8 = if mv.to >= mv.from {
                mv.to - mv.from
            } else {
                mv.from - mv.to
            };
            if diff == 16 {
                pos.en_passant = Some((mv.from + mv.to) / 2);
            }
        }
        // Castling rights: a king move drops both, a rook corner drops one
        let mut castling = self.castling;
        if piece_type == KING {
            if self.side_to_move == Color::White {
                castling = castling & !3u8;
            } else {
                castling = castling & !12u8;
            }
        }
        if mv.from == 0 || mv.to == 0 {
            castling = castling & !2u8;
        }
        if mv.from == 7 || mv.to == 7 {
            castling = castling & !1u8;
        }
        if mv.from == 56 || mv.to == 56 {
            castling = castling & !8u8;
        }
        if mv.from == 63 || mv.to == 63 {
            castling = castling & !4u8;
        }
        pos.castling = castling;
        pos.side_to_move = if self.side_to_move == Color::White {
            Color::Black
        } else {
            Color::White
        };
        pos
    }
}


// ── Move Generation ────────────────────────────────────────────────

pub open spec fn own_board(p: Position) -> u64 {
    p.colors[color_idx(p.side_to_move)]
}

pub open spec fn enemy_board(p: Position) -> u64 {
    p.colors[1 - color_idx(p.side_to_move)]
}

pub open spec fn quiet(from: int, to: int) -> Move {
    Move { from: from as u8, to: to as u8, promotion: None }
}

pub open spec fn promo(from: int, to: int, pt: usize) -> Move {
    Move { from: from as u8, to: to as u8, promotion: Some(pt) }
}

/// The four promotions of a pawn move, queen first, then rook, bishop, knight.
pub open spec fn promotions(from: int, to: int) -> Seq<Move> {
    seq![promo(from, to, QUEEN), promo(from, to, ROOK), promo(from, to, BISHOP), promo(from, to, KNIGHT)]
}

/// A knight, bishop, rook, queen or king (by `pt`) on `from` may go to `t`: it
/// attacks `t` and no piece of its own side stands there.
pub open spec fn piece_may_go(p: Position, pt: usize, from: int, t: int) -> bool {
    let occ = occupancy(p);
    let reach = if pt == KNIGHT {
        knight_step(from, t)
    } else if pt == BISHOP {
        bishop_target(from, occ, t)
    } else if pt == ROOK {
        rook_target(from, occ, t)
    } else if pt == QUEEN {
        rook_target(from, occ, t) || bishop_target(from, occ, t)
    } else {
        king_step(from, t)
    };
    0 <= t < 64 && reach && !sq_in(own_board(p), t)
}

/// The moves of the piece on `from` to the squares below `n`, in square order.
pub open spec fn piece_targets(p: Position, pt: usize, from: int, n: int) -> Seq<Move>
    decreases n,
{
    if n <= 0 {
        seq![]
    } else {
        piece_targets(p, pt, from, n - 1) + if piece_may_go(p, pt, from, n - 1) {
            seq![quiet(from, n - 1)]
        } else {
            seq![]
        }
    }
}

/// The moves of the side's pieces of type `pt` standing below square `n`, by origin square.
pub open spec fn piece_moves(p: Position, pt: usize, n: int) -> Seq<Move>
    decreases n,
{
    if n <= 0 {
        seq![]
    } else {
        piece_moves(p, pt, n - 1) + if sq_in(p.pieces[pt as int] & own_board(p), n - 1) {
            piece_targets(p, pt, n - 1, 64)
        } else {
            seq![]
        }
    }
}

/// Pawn pushes from `s`: one square forward onto an empty square (as its four
/// promotions when landing on the last rank), and from the home rank two
/// squares when both are empty.
pub open spec fn pawn_pushes(p: Position, s: int) -> Seq<Move> {
    let white = p.side_to_move == Color::White;
    let occ = occupancy(p);
    let to = if white {
        s + 8
    } else {
        s - 8
    };
    if 0 <= to < 64 && !sq_in(occ, to) {
        let single = if rank_of(to) == (if white {
            7int
        } else {
            0int
        }) {
            promotions(s, to)
        } else {
            seq![quiet(s, to)]
        };
        let to2 = if white {
            s + 16
        } else {
            s - 16
        };
        let double = if rank_of(s) == (if white {
            1int
        } else {
            6int
        }) && 0 <= to2 < 64 && !sq_in(occ, to2) {
            seq![quiet(s, to2)]
        } else {
            seq![]
        };
        single + double
    } else {
        seq![]
    }
}

/// Captures by the pawn on `from` of enemy pieces below square `n`, in square
/// order; a capture onto the last rank comes as its four promotions.
pub open spec fn pawn_captures(p: Position, from: int, n: int) -> Seq<Move>
    decreases n,
{
    if n <= 0 {
        seq![]
    } else {
        let t = n - 1;
        let last = if p.side_to_move == Color::White {
            7int
        } else {
            0int
        };
        pawn_captures(p, from, n - 1) + if pawn_step(from, p.side_to_move, t) && sq_in(
            enemy_board(p),
            t,
        ) {
            if rank_of(t) == last {
                promotions(from, t)
            } else {
                seq![quiet(from, t)]
            }
        } else {
            seq![]
        }
    }
}

/// The en passant capture of the pawn on `from`, when it attacks the en passant square.
pub open spec fn pawn_en_passant(p: Position, from: int) -> Seq<Move> {
    match p.en_passant {
        Some(e) => if 0 <= e < 64 && pawn_step(from, p.side_to_move, e as int) {
            seq![quiet(from, e as int)]
        } else {
            seq![]
        },
        None => seq![],
    }
}

/// The moves of the side's pawns standing below square `n`, by origin square.
pub open spec fn pawn_moves(p: Position, n: int) -> Seq<Move>
    decreases n,
{
    if n <= 0 {
        seq![]
    } else {
        pawn_moves(p, n - 1) + if sq_in(p.pieces[PAWN as int] & own_board(p), n - 1) {
            pawn_pushes(p, n - 1) + pawn_captures(p, n - 1, 64) + pawn_en_passant(p, n - 1)
        } else {
            seq![]
        }
    }
}

pub open spec fn empty_sq(p: Position, s: int) -> bool {
    !sq_in(occupancy(p), s)
}

pub open spec fn safe_sq(p: Position, s: int) -> bool {
    !spec_attacked(p, opposite(p.side_to_move), s)
}

/// Castling moves: with the right still held, the squares between king and rook
/// empty and the squares the king stands on, crosses and reaches not attacked;
/// kingside first.
pub open spec fn castling_moves(p: Position) -> Seq<Move> {
    if p.side_to_move == Color::White {
        let k = if p.castling & 1 != 0 && empty_sq(p, 5) && empty_sq(p, 6) && safe_sq(p, 4)
            && safe_sq(p, 5) && safe_sq(p, 6) {
            seq![quiet(4, 6)]
        } else {
            seq![]
        };
        let q = if p.castling & 2 != 0 && empty_sq(p, 1) && empty_sq(p, 2) && empty_sq(p, 3)
            && safe_sq(p, 2) && safe_sq(p, 3) && safe_sq(p, 4) {
            seq![quiet(4, 2)]
        } else {
            seq![]
        };
        k + q
    } else {
        let k = if p.castling & 4 != 0 && empty_sq(p, 61) && empty_sq(p, 62) && safe_sq(p, 60)
            && safe_sq(p, 61) && safe_sq(p, 62) {
            seq![quiet(60, 62)]
        } else {
            seq![]
        };
        let q = if p.castling & 8 != 0 && empty_sq(p, 57) && empty_sq(p, 58) && empty_sq(p, 59)
            && safe_sq(p, 58) && safe_sq(p, 59) && safe_sq(p, 60) {
            seq![quiet(60, 58)]
        } else {
            seq![]
        };
        k + q
    }
}

/// All pseudo-legal moves, in generation order: pawns, knights, bishops, rooks,
/// queens, king, castling.
pub open spec fn pseudo_legal(p: Position) -> Seq<Move> {
    pawn_moves(p, 64) + piece_moves(p, KNIGHT, 64) + piece_moves(p, BISHOP, 64) + piece_moves(
        p,
        ROOK,
        64,
    ) + piece_moves(p, QUEEN, 64) + piece_moves(p, KING, 64) + castling_moves(p)
}

/// A move leaves the mover's own king safe.
pub open spec fn keeps_king_safe(p: Position, m: Move) -> bool {
    !spec_in_check(spec_make_move(p, m), p.side_to_move)
}

/// The legal moves: the pseudo-legal ones, in order, that leave the mover's king
/// out of check.
pub open spec fn spec_legal_moves(p: Position) -> Seq<Move> {
    pseudo_legal(p).filter(king_safe_pred(p))
}

pub open spec fn king_safe_pred(p: Position) -> spec_fn(Move) -> bool {
    |m: Move| keeps_king_safe(p, m)
}

pub open spec fn all_in_range(ms: Seq<Move>) -> bool {
    forall|i: int| 0 <= i < ms.len() ==> #[trigger] move_in_range(ms[i])
}


impl Position {
    /// Appends the moves of the piece of type `pt` on `from` (not a pawn).
    fn gen_piece_targets(&self, moves: &mut Vec<Move>, pt: usize, from: u8, occupied: u64, friendly: u64)
        requires
            1 <= pt < 6,
            from < 64,
            occupied == occupancy(*self),
            friendly == own_board(*self),
            all_in_range(old(moves)@),
        ensures
            final(moves)@ == old(moves)@ + piece_targets(*self, pt, from as int, 64),
            all_in_range(final(moves)@),
    {
        let attacks = if pt == KNIGHT {
            knight_attacks(from)
        } else if pt == BISHOP {
            bishop_attacks(from, occupied)
        } else if pt == ROOK {
            rook_attacks(from, occupied)
        } else if pt == QUEEN {
            queen_attacks(from, occupied)
        } else {
            king_attacks(from)
        };
        let targets = attacks & !friendly;
        assert forall|t: int| 0 <= t < 64 implies #[trigger] sq_in(targets, t) == piece_may_go(
            *self,
            pt,
            from as int,
            t,
        ) by {}
        let ghost start = moves@;
        let mut to: u8 = 0;
        while to < 64
            invariant
                to <= 64,
                from < 64,
                1 <= pt < 6,
                forall|t: int|
                    0 <= t < 64 ==> #[trigger] sq_in(targets, t) == piece_may_go(
                        *self,
                        pt,
                        from as int,
                        t,
                    ),
                moves@ == start + piece_targets(*self, pt, from as int, to as int),
                all_in_range(moves@),
            decreases 64 - to,
        {
            let bit = square_bit(to);
            assert(sq_in(targets, to as int) == (targets & bit != 0));
            if targets & bit != 0 {
                moves.push(Move::new(from, to));
            }
            assert(moves@ =~= start + piece_targets(*self, pt, from as int, to + 1));
            to += 1;
        }
    }

    /// Appends the moves of the side's pieces of type `pt` (not a pawn).
    fn gen_piece_moves(&self, moves: &mut Vec<Move>, pt: usize, friendly: u64, occupied: u64)
        requires
            1 <= pt < 6,
            occupied == occupancy(*self),
            friendly == own_board(*self),
            all_in_range(old(moves)@),
        ensures
            final(moves)@ == old(moves)@ + piece_moves(*self, pt, 64),
            all_in_range(final(moves)@),
    {
        let bb = self.pieces[pt] & self.colors[self.color_index()];
        let ghost start = moves@;
        let mut sq: u8 = 0;
        while sq < 64
            invariant
                sq <= 64,
                1 <= pt < 6,
                occupied == occupancy(*self),
                friendly == own_board(*self),
                bb == self.pieces[pt as int] & own_board(*self),
                moves@ == start + piece_moves(*self, pt, sq as int),
                all_in_range(moves@),
            decreases 64 - sq,
        {
            let ghost before = moves@;
            if bb & square_bit(sq) != 0 {
                self.gen_piece_targets(moves, pt, sq, occupied, friendly);
            }
            assert(moves@ =~= start + piece_moves(*self, pt, sq + 1));
            sq += 1;
        }
    }
}


/// Whether square `s` is set in `b`.
fn bit_at(b: u64, s: u8) -> (r: bool)
    requires
        s < 64,
    ensures
        r == sq_in(b, s as int),
{
    b & square_bit(s) != 0
}

fn push_promotions(moves: &mut Vec<Move>, from: u8, to: u8)
    requires
        from < 64,
        to < 64,
        all_in_range(old(moves)@),
    ensures
        final(moves)@ == old(moves)@ + promotions(from as int, to as int),
        all_in_range(final(moves)@),
{
    let ghost start = moves@;
    moves.push(Move::with_promotion(from, to, QUEEN));
    moves.push(Move::with_promotion(from, to, ROOK));
    moves.push(Move::with_promotion(from, to, BISHOP));
    moves.push(Move::with_promotion(from, to, KNIGHT));
    assert(moves@ =~= start + promotions(from as int, to as int));
}

impl Position {
    /// Appends the pushes, captures and en passant capture of the pawn on `sq`.
    fn gen_pawn_moves_at(&self, moves: &mut Vec<Move>, sq: u8, occupied: u64, enemy: u64)
        requires
            sq < 64,
            occupied == occupancy(*self),
            enemy == enemy_board(*self),
            all_in_range(old(moves)@),
        ensures
            final(moves)@ == old(moves)@ + pawn_pushes(*self, sq as int) + pawn_captures(
                *self,
                sq as int,
                64,
            ) + pawn_en_passant(*self, sq as int),
            all_in_range(final(moves)@),
    {
        let ghost start = moves@;
        let white = self.side_to_move == Color::White;
        let dir: i8 = if white {
            8
        } else {
            -8
        };
        let rank = sq / 8;
        // Pushes
        let to_sq: i8 = sq as i8 + dir;
        if to_sq >= 0 && to_sq < 64 && occupied & square_bit(to_sq as u8) == 0 {
            let to = to_sq as u8;
            if to / 8 == (if white {
                7
            } else {
                0
            }) {
                push_promotions(moves, sq, to);
            } else {
                moves.push(Move::new(sq, to));
            }
            // Double push from the home rank
            if rank == (if white {
                1
            } else {
                6
            }) {
                let to_sq2: i8 = sq as i8 + dir * 2;
                if to_sq2 >= 0 && to_sq2 < 64 && occupied & square_bit(to_sq2 as u8) == 0 {
                    moves.push(Move::new(sq, to_sq2 as u8));
                }
            }
        }
        assert(moves@ =~= start + pawn_pushes(*self, sq as int));
        // Captures
        let ghost after_pushes = moves@;
        let attacks = pawn_attacks(sq, self.side_to_move);
        let caps = attacks & enemy;
        let last: u8 = if white {
            7
        } else {
            0
        };
        let mut t: u8 = 0;
        while t < 64
            invariant
                t <= 64,
                sq < 64,
                caps == attacks & enemy,
                enemy == enemy_board(*self),
                white == (self.side_to_move == Color::White),
                last == (if white {
                    7u8
                } else {
                    0u8
                }),
                forall|u: int| #[trigger]
                    sq_in(attacks, u) == (0 <= u < 64 && pawn_step(
                        sq as int,
                        self.side_to_move,
                        u,
                    )),
                moves@ == after_pushes + pawn_captures(*self, sq as int, t as int),
                all_in_range(moves@),
            decreases 64 - t,
        {
            let bit = square_bit(t);
            assert(sq_in(caps, t as int) == (caps & bit != 0));
            if caps & bit != 0 {
                if t / 8 == last {
                    push_promotions(moves, sq, t);
                } else {
                    moves.push(Move::new(sq, t));
                }
            }
            assert(moves@ =~= after_pushes + pawn_captures(*self, sq as int, t + 1));
            t += 1;
        }
        // En passant
        let ghost after_caps = moves@;
        match self.en_passant {
            Some(ep) => {
                if ep < 64 {
                    let bit = square_bit(ep);
                    assert(sq_in(attacks, ep as int) == (attacks & bit != 0));
                    if attacks & bit != 0 {
                        moves.push(Move::new(sq, ep));
                    }
                }
            },
            None => {},
        }
        assert(moves@ =~= after_caps + pawn_en_passant(*self, sq as int));
    }

    /// Appends the moves of all of the side's pawns.
    fn gen_pawn_moves(&self, moves: &mut Vec<Move>, us: usize, them: usize, occupied: u64)
        requires
            us as int == color_idx(self.side_to_move),
            them as int == 1 - color_idx(self.side_to_move),
            occupied == occupancy(*self),
            all_in_range(old(moves)@),
        ensures
            final(moves)@ == old(moves)@ + pawn_moves(*self, 64),
            all_in_range(final(moves)@),
    {
        let pawns = self.pieces[PAWN] & self.colors[us];
        let enemy = self.colors[them];
        let ghost start = moves@;
        let mut sq: u8 = 0;
        while sq < 64
            invariant
                sq <= 64,
                occupied == occupancy(*self),
                enemy == enemy_board(*self),
                pawns == self.pieces[PAWN as int] & own_board(*self),
                moves@ == start + pawn_moves(*self, sq as int),
                all_in_range(moves@),
            decreases 64 - sq,
        {
            if pawns & square_bit(sq) != 0 {
                self.gen_pawn_moves_at(moves, sq, occupied, enemy);
            }
            assert(moves@ =~= start + pawn_moves(*self, sq + 1));
            sq += 1;
        }
    }

    /// Appends the castling moves.
    fn gen_castling(&self, moves: &mut Vec<Move>, us: usize, occupied: u64)
        requires
            us as int == color_idx(self.side_to_move),
            occupied == occupancy(*self),
            all_in_range(old(moves)@),
        ensures
            final(moves)@ == old(moves)@ + castling_moves(*self),
            all_in_range(final(moves)@),
    {
        let ghost start = moves@;
        let enemy_color = if us == WHITE {
            Color::Black
        } else {
            Color::White
        };
        let ea = attacked_by(self, enemy_color);
        let empty = !occupied;
        assert(enemy_color == opposite(self.side_to_move));
        assert(forall|s: int| 0 <= s < 64 ==> #[trigger] sq_in(empty, s) == !sq_in(occupied, s));
        if us == WHITE {
            if self.castling & 1 != 0 && bit_at(empty, 5) && bit_at(empty, 6)
                && !bit_at(ea, 4) && !bit_at(ea, 5) && !bit_at(ea, 6) {
                moves.push(Move::new(4, 6));
            }
            if self.castling & 2 != 0 && bit_at(empty, 1) && bit_at(empty, 2)
                && bit_at(empty, 3) && !bit_at(ea, 2) && !bit_at(ea, 3)
                && !bit_at(ea, 4) {
                moves.push(Move::new(4, 2));
            }
        } else {
            if self.castling & 4 != 0 && bit_at(empty, 61) && bit_at(empty, 62)
                && !bit_at(ea, 60) && !bit_at(ea, 61) && !bit_at(ea, 62) {
                moves.push(Move::new(60, 62));
            }
            if self.castling & 8 != 0 && bit_at(empty, 57) && bit_at(empty, 58) && bit_at(empty, 59) && !bit_at(ea, 58) && !bit_at(ea, 59) && !bit_at(ea, 60) {
                moves.push(Move::new(60, 58));
            }
        }
        assert(moves@ =~= start + castling_moves(*self));
    }

    fn generate_pseudo_legal(&self, moves: &mut Vec<Move>)
        requires
            all_in_range(old(moves)@),
        ensures
            final(moves)@ == old(moves)@ + pseudo_legal(*self),
            all_in_range(final(moves)@),
    {
        let ghost start = moves@;
        let us = self.color_index();
        let them = self.enemy_index();
        let friendly = self.colors[us];
        let occupied = self.occupied();
        self.gen_pawn_moves(moves, us, them, occupied);
        self.gen_piece_moves(moves, KNIGHT, friendly, occupied);
        self.gen_piece_moves(moves, BISHOP, friendly, occupied);
        self.gen_piece_moves(moves, ROOK, friendly, occupied);
        self.gen_piece_moves(moves, QUEEN, friendly, occupied);
        self.gen_piece_moves(moves, KING, friendly, occupied);
        self.gen_castling(moves, us, occupied);
        assert(moves@ =~= start + pseudo_legal(*self));
    }
}


impl Position {
    /// Generate all legal moves for the side to move.
    pub fn legal_moves(&self) -> (r: Vec<Move>)
        ensures
            r@ == spec_legal_moves(*self),
            all_in_range(r@),
    {
        let mut pseudo: Vec<Move> = Vec::new();
        self.generate_pseudo_legal(&mut pseudo);
        let ghost ps = pseudo@;
        assert(ps =~= pseudo_legal(*self));
        // Keep the moves after which the king is not in check
        let us = self.side_to_move;
        let mut moves: Vec<Move> = Vec::new();
        let mut i: usize = 0;
        while i < pseudo.len()
            invariant
                i <= pseudo.len(),
                pseudo@ == ps,
                all_in_range(ps),
                us == self.side_to_move,
                moves@ == ps.take(i as int).filter(king_safe_pred(*self)),
                all_in_range(moves@),
            decreases pseudo.len() - i,
        {
            let mv = pseudo[i];
            let new_pos = self.make_move(mv);
            if !new_pos.in_check(us) {
                moves.push(mv);
            }
            proof {
                reveal(Seq::filter);
                assert(ps.take(i + 1).drop_last() =~= ps.take(i as int));
                assert(ps.take(i + 1).last() == mv);
            }
            i += 1;
        }
        assert(ps.take(ps.len() as int) =~= ps);
        moves
    }

    /// Is the current position checkmate?
    pub fn is_checkmate(&self) -> (r: bool)
        ensures
            r == (spec_in_check(*self, self.side_to_move) && spec_legal_moves(*self).len() == 0),
    {
        self.in_check(self.side_to_move) && self.legal_moves().len() == 0
    }

    /// Is the current position stalemate?
    pub fn is_stalemate(&self) -> (r: bool)
        ensures
            r == (!spec_in_check(*self, self.side_to_move) && spec_legal_moves(*self).len() == 0),
    {
        !self.in_check(self.side_to_move) && self.legal_moves().len() == 0
    }
}


// ── FEN ────────────────────────────────────────────────────────────

pub open spec fn empty_position() -> Position {
    Position {
        pieces: [0u64, 0u64, 0u64, 0u64, 0u64, 0u64],
        colors: [0u64, 0u64],
        side_to_move: Color::White,
        castling: 0,
        en_passant: None,
    }
}

/// The piece type and colour index a FEN piece letter names.
pub open spec fn piece_of_char(c: char) -> Option<(usize, usize)> {
    if c == 'P' {
        Some((PAWN, WHITE))
    } else if c == 'N' {
        Some((KNIGHT, WHITE))
    } else if c == 'B' {
        Some((BISHOP, WHITE))
    } else if c == 'R' {
        Some((ROOK, WHITE))
    } else if c == 'Q' {
        Some((QUEEN, WHITE))
    } else if c == 'K' {
        Some((KING, WHITE))
    } else if c == 'p' {
        Some((PAWN, BLACK))
    } else if c == 'n' {
        Some((KNIGHT, BLACK))
    } else if c == 'b' {
        Some((BISHOP, BLACK))
    } else if c == 'r' {
        Some((ROOK, BLACK))
    } else if c == 'q' {
        Some((QUEEN, BLACK))
    } else if c == 'k' {
        Some((KING, BLACK))
    } else {
        None
    }
}

/// `p` with square `s` added to piece board `pt` and colour board `col`.
pub open spec fn with_piece(p: Position, pt: usize, col: usize, s: int) -> Position {
    let b = bit_of(s);
    Position {
        pieces: [
            if pt == 0 { p.pieces[0] | b } else { p.pieces[0] },
            if pt == 1 { p.pieces[1] | b } else { p.pieces[1] },
            if pt == 2 { p.pieces[2] | b } else { p.pieces[2] },
            if pt == 3 { p.pieces[3] | b } else { p.pieces[3] },
            if pt == 4 { p.pieces[4] | b } else { p.pieces[4] },
            if pt == 5 { p.pieces[5] | b } else { p.pieces[5] },
        ],
        colors: [
            if col == 0 { p.colors[0] | b } else { p.colors[0] },
            if col == 1 { p.colors[1] | b } else { p.colors[1] },
        ],
        ..p
    }
}

/// Reads the piece placement field from rank `rank`, file `file` on: '/' starts
/// the next rank down, a digit skips that many files, a piece letter puts the
/// piece on the current square and moves one file on. A piece letter off the
/// board, or any other character, makes the field invalid.
pub open spec fn place(p: Position, rank: int, file: int, cs: Seq<char>) -> Option<Position>
    decreases cs.len(),
{
    if cs.len() == 0 {
        Some(p)
    } else {
        let c = cs[0];
        let rest = cs.drop_first();
        if c == '/' {
            place(p, rank - 1, 0, rest)
        } else if '1' <= c <= '8' {
            place(p, rank, file + (c as int - '0' as int), rest)
        } else if rank < 0 || file > 7 {
            None
        } else {
            match piece_of_char(c) {
                Some((pt, col)) => place(with_piece(p, pt, col, rank * 8 + file), rank, file + 1, rest),
                None => None,
            }
        }
    }
}

/// Castling rights from the castling field: 'K', 'Q', 'k', 'q' set one bit each;
/// other characters are ignored.
pub open spec fn castling_bits(cs: Seq<char>) -> u8
    decreases cs.len(),
{
    if cs.len() == 0 {
        0
    } else {
        let c = cs.last();
        let b: u8 = if c == 'K' {
            1
        } else if c == 'Q' {
            2
        } else if c == 'k' {
            4
        } else if c == 'q' {
            8
        } else {
            0
        };
        castling_bits(cs.drop_last()) | b
    }
}

/// The en passant square named by a two-letter field such as "e3": file letter
/// from 'a' and rank digit from '1', as rank * 8 + file; `None` for any other field.
pub open spec fn ep_of(cs: Seq<char>) -> Option<u8> {
    if cs.len() == 2 && 97 <= (cs[0] as int) < 128 && 49 <= (cs[1] as int) < 128 && (cs[1] as int
        - 49) * 8 + (cs[0] as int - 97) <= 255 {
        Some(((cs[1] as int - 49) * 8 + (cs[0] as int - 97)) as u8)
    } else {
        None
    }
}

/// The position that FEN text `cs` describes, if any. Fields are separated by
/// white space; the placement is required, the side to move ("w" or "b"),
/// castling rights and en passant square are optional; later fields are ignored.
pub open spec fn spec_from_fen(cs: Seq<char>) -> Option<Position> {
    let parts = words(cs);
    if parts.len() == 0 {
        None
    } else {
        match place(empty_position(), 7, 0, parts[0]) {
            None => None,
            Some(p) => {
                let side = if parts.len() > 1 {
                    if parts[1] == seq!['w'] {
                        Some(Color::White)
                    } else if parts[1] == seq!['b'] {
                        Some(Color::Black)
                    } else {
                        None
                    }
                } else {
                    Some(Color::White)
                };
                match side {
                    None => None,
                    Some(side) => Some(
                        Position {
                            side_to_move: side,
                            castling: if parts.len() > 2 {
                                castling_bits(parts[2])
                            } else {
                                0
                            },
                            en_passant: if parts.len() > 3 {
                                ep_of(parts[3])
                            } else {
                                None
                            },
                            ..p
                        },
                    ),
                }
            },
        }
    }
}

proof fn lemma_place_keeps(p: Position, rank: int, file: int, cs: Seq<char>)
    ensures
        place(p, rank, file, cs) matches Some(q) ==> q.side_to_move == p.side_to_move
            && q.castling == p.castling && q.en_passant == p.en_passant,
    decreases cs.len(),
{
    if cs.len() > 0 {
        let c = cs[0];
        let rest = cs.drop_first();
        if c == '/' {
            lemma_place_keeps(p, rank - 1, 0, rest);
        } else if '1' <= c <= '8' {
            lemma_place_keeps(p, rank, file + (c as int - '0' as int), rest);
        } else if !(rank < 0 || file > 7) {
            match piece_of_char(c) {
                Some((pt, col)) => lemma_place_keeps(
                    with_piece(p, pt, col, rank * 8 + file),
                    rank,
                    file + 1,
                    rest,
                ),
                None => {},
            }
        }
    }
}

fn add_piece(p: Position, pt: usize, col: usize, sq: u8) -> (r: Position)
    requires
        pt < 6,
        col < 2,
        sq < 64,
    ensures
        r == with_piece(p, pt, col, sq as int),
{
    let mut r = p;
    let bit = square_bit(sq);
    r.pieces[pt] = r.pieces[pt] | bit;
    r.colors[col] = r.colors[col] | bit;
    assert(r.pieces =~= with_piece(p, pt, col, sq as int).pieces);
    assert(r.colors =~= with_piece(p, pt, col, sq as int).colors);
    r
}

fn piece_of(c: char) -> (r: Option<(usize, usize)>)
    ensures
        r == piece_of_char(c),
{
    match c {
        'P' => Some((PAWN, WHITE)),
        'N' => Some((KNIGHT, WHITE)),
        'B' => Some((BISHOP, WHITE)),
        'R' => Some((ROOK, WHITE)),
        'Q' => Some((QUEEN, WHITE)),
        'K' => Some((KING, WHITE)),
        'p' => Some((PAWN, BLACK)),
        'n' => Some((KNIGHT, BLACK)),
        'b' => Some((BISHOP, BLACK)),
        'r' => Some((ROOK, BLACK)),
        'q' => Some((QUEEN, BLACK)),
        'k' => Some((KING, BLACK)),
        _ => None,
    }
}

/// Reads a piece placement field onto an empty board.
fn place_pieces(cs: &Vec<char>) -> (r: Option<Position>)
    ensures
        r == place(empty_position(), 7, 0, cs@),
{
    let mut pos = Position::empty();
    assert(pos.pieces =~= empty_position().pieces);
    assert(pos.colors =~= empty_position().colors);
    // the rank, kept at -1 once below the board, and the file, kept at 8 once past it
    let mut rank: i8 = 7;
    let mut file: i8 = 0;
    let ghost mut gr: int = 7;
    let ghost mut gf: int = 0;
    let mut i: usize = 0;
    assert(cs@.skip(0) =~= cs@);
    while i < cs.len()
        invariant
            i <= cs.len(),
            place(empty_position(), 7, 0, cs@) == place(pos, gr, gf, cs@.skip(i as int)),
            gr <= 7,
            gf >= 0,
            gr >= 0 ==> rank as int == gr,
            gr < 0 ==> rank == -1,
            gf <= 7 ==> file as int == gf,
            gf > 7 ==> file == 8,
        decreases cs.len() - i,
    {
        let c = cs[i];
        let ghost rest = cs@.skip(i as int);
        assert(rest[0] == c);
        assert(rest.drop_first() =~= cs@.skip(i + 1));
        if c == '/' {
            rank = if rank >= 0 {
                rank - 1
            } else {
                -1
            };
            file = 0;
            proof {
                gr = gr - 1;
                gf = 0;
            }
        } else if '1' <= c && c <= '8' {
            let d = (c as u32 - '0' as u32) as i8;
            file = if file + d > 7 {
                8
            } else {
                file + d
            };
            proof {
                gf = gf + (c as int - '0' as int);
            }
        } else if rank < 0 || file > 7 {
            return None;
        } else {
            match piece_of(c) {
                Some((pt, col)) => {
                    let sq = (rank as u8) * 8 + (file as u8);
                    pos = add_piece(pos, pt, col, sq);
                    file = file + 1;
                    proof {
                        gf = gf + 1;
                    }
                },
                None => {
                    return None;
                },
            }
        }
        i += 1;
    }
    assert(cs@.skip(i as int) =~= seq![]);
    Some(pos)
}

fn castling_field(cs: &Vec<char>) -> (c: u8)
    ensures
        c == castling_bits(cs@),
{
    let mut castling: u8 = 0;
    let mut i: usize = 0;
    assert(cs@.take(0) =~= seq![]);
    while i < cs.len()
        invariant
            i <= cs.len(),
            castling == castling_bits(cs@.take(i as int)),
        decreases cs.len() - i,
    {
        let ch = cs[i];
        let b: u8 = match ch {
            'K' => 1,
            'Q' => 2,
            'k' => 4,
            'q' => 8,
            _ => 0,
        };
        castling = castling | b;
        assert(cs@.take(i + 1).drop_last() =~= cs@.take(i as int));
        i += 1;
    }
    assert(cs@.take(i as int) =~= cs@);
    castling
}

fn ep_field(cs: &Vec<char>) -> (r: Option<u8>)
    ensures
        r == ep_of(cs@),
{
    if cs.len() != 2 {
        return None;
    }
    let ch0 = cs[0];
    let ch1 = cs[1];
    if ch0 >= 'a' && '\u{80}' > ch0 && ch1 >= '1' && '\u{80}' > ch1 {
        let f = ch0 as u32 - 97;
        let r = ch1 as u32 - 49;
        if r * 8 + f <= 255 {
            return Some((r * 8 + f) as u8);
        }
    }
    None
}

/// The standard starting position.
pub open spec fn start_position() -> Position {
    Position {
        pieces: [
            0x00FF_0000_0000_FF00,
            0x4200_0000_0000_0042,
            0x2400_0000_0000_0024,
            0x8100_0000_0000_0081,
            0x0800_0000_0000_0008,
            0x1000_0000_0000_0010,
        ],
        colors: [0x0000_0000_0000_FFFF, 0xFFFF_0000_0000_0000],
        side_to_move: Color::White,
        castling: 15,
        en_passant: None,
    }
}

impl Position {
    /// The standard starting position.
    pub fn start() -> (p: Self)
        ensures
            p == start_position(),
            p.pieces@ == seq![
                0x00FF_0000_0000_FF00u64,
                0x4200_0000_0000_0042u64,
                0x2400_0000_0000_0024u64,
                0x8100_0000_0000_0081u64,
                0x0800_0000_0000_0008u64,
                0x1000_0000_0000_0010u64,
            ],
            p.colors@ == seq![0x0000_0000_0000_FFFFu64, 0xFFFF_0000_0000_0000u64],
            p.side_to_move == Color::White,
            p.castling == 15,
            p.en_passant.is_none(),
    {
        Position {
            pieces: [
                0x00FF_0000_0000_FF00,
                0x4200_0000_0000_0042,
                0x2400_0000_0000_0024,
                0x8100_0000_0000_0081,
                0x0800_0000_0000_0008,
                0x1000_0000_0000_0010,
            ],
            colors: [0x0000_0000_0000_FFFF, 0xFFFF_0000_0000_0000],
            side_to_move: Color::White,
            castling: 15,
            en_passant: None,
        }
    }

    /// Parses a position from FEN text.
    pub fn from_fen(fen: &str) -> (r: Option<Self>)
        ensures
            r == spec_from_fen(fen@),
    {
        let cs = chars_of(fen);
        let parts = split_words(&cs);
        proof {
            assert(views_of(parts@).len() == parts@.len());
        }
        if parts.len() == 0 {
            return None;
        }
        assert(parts[0]@ == words(fen@)[0]);
        proof {
            lemma_place_keeps(empty_position(), 7, 0, parts[0]@);
        }
        let mut pos = match place_pieces(&parts[0]) {
            Some(p) => p,
            None => {
                return None;
            },
        };
        if parts.len() > 1 {
            assert(parts[1]@ == words(fen@)[1]);
            let p1 = &parts[1];
            if p1.len() == 1 && p1[0] == 'w' {
                assert(p1@ =~= seq!['w']);
                pos.side_to_move = Color::White;
            } else if p1.len() == 1 && p1[0] == 'b' {
                assert(p1@ =~= seq!['b']);
                pos.side_to_move = Color::Black;
            } else {
                assert(p1@ != seq!['w'] && p1@ != seq!['b']) by {
                    if p1@ == seq!['w'] || p1@ == seq!['b'] {
                        assert(p1@.len() == 1);
                    }
                }
                return None;
            }
        }
        if parts.len() > 2 {
            assert(parts[2]@ == words(fen@)[2]);
            pos.castling = castling_field(&parts[2]);
        }
        if parts.len() > 3 {
            assert(parts[3]@ == words(fen@)[3]);
            pos.en_passant = ep_field(&parts[3]);
        }
        Some(pos)
    }
}


// ── Bounds ─────────────────────────────────────────────────────────

proof fn lemma_piece_targets_len(p: Position, pt: usize, from: int, n: int)
    requires
        n >= 0,
    ensures
        piece_targets(p, pt, from, n).len() <= n,
    decreases n,
{
    if n > 0 {
        lemma_piece_targets_len(p, pt, from, n - 1);
    }
}

proof fn lemma_piece_moves_len(p: Position, pt: usize, n: int)
    requires
        n >= 0,
    ensures
        piece_moves(p, pt, n).len() <= 64 * n,
    decreases n,
{
    if n > 0 {
        lemma_piece_moves_len(p, pt, n - 1);
        lemma_piece_targets_len(p, pt, n - 1, 64);
    }
}

proof fn lemma_pawn_captures_len(p: Position, from: int, n: int)
    requires
        n >= 0,
    ensures
        pawn_captures(p, from, n).len() <= 4 * n,
    decreases n,
{
    if n > 0 {
        lemma_pawn_captures_len(p, from, n - 1);
    }
}

proof fn lemma_pawn_moves_len(p: Position, n: int)
    requires
        n >= 0,
    ensures
        pawn_moves(p, n).len() <= 262 * n,
    decreases n,
{
    if n > 0 {
        lemma_pawn_moves_len(p, n - 1);
        lemma_pawn_captures_len(p, n - 1, 64);
    }
}

/// No position has more than 37250 pseudo-legal moves, so none has more legal moves.
pub proof fn lemma_legal_moves_len(p: Position)
    ensures
        spec_legal_moves(p).len() <= pseudo_legal(p).len() <= 37250,
{
    lemma_pawn_moves_len(p, 64);
    lemma_piece_moves_len(p, KNIGHT, 64);
    lemma_piece_moves_len(p, BISHOP, 64);
    lemma_piece_moves_len(p, ROOK, 64);
    lemma_piece_moves_len(p, QUEEN, 64);
    lemma_piece_moves_len(p, KING, 64);
    pseudo_legal(p).lemma_filter_len(king_safe_pred(p));
}

// ── What FEN reading gives ─────────────────────────────────────────

/// Whether some piece board holds square `s`.
pub open spec fn any_type(p: Position, s: int) -> bool {
    sq_in(p.pieces[0], s) || sq_in(p.pieces[1], s) || sq_in(p.pieces[2], s) || sq_in(p.pieces[3], s)
        || sq_in(p.pieces[4], s) || sq_in(p.pieces[5], s)
}

/// The boards of `p` agree: no square is on two piece boards or on both colour
/// boards, a square is on a piece board exactly when it is on a colour board,
/// and the castling rights use the four low bits only.
pub open spec fn consistent(p: Position) -> bool {
    &&& forall|s: int, i: int, j: int|
        0 <= i < j < 6 ==> !(#[trigger] sq_in(p.pieces[i], s) && #[trigger] sq_in(p.pieces[j], s))
    &&& forall|s: int| !(#[trigger] sq_in(p.colors[0], s) && sq_in(p.colors[1], s))
    &&& forall|s: int| (sq_in(p.colors[0], s) || sq_in(p.colors[1], s)) == #[trigger] any_type(p, s)
    &&& p.castling < 16
}

/// Whether square `s` comes before file `file` of rank `rank` in FEN order:
/// ranks from the eighth down, files from a to h.
pub open spec fn fen_before(rank: int, file: int, s: int) -> bool {
    s / 8 > rank || (s / 8 == rank && s % 8 < file)
}

/// The boards agree, and every occupied square comes before the reading point.
pub open spec fn placed_so_far(q: Position, rank: int, file: int) -> bool {
    &&& forall|s: int, i: int, j: int|
        0 <= i < j < 6 ==> !(#[trigger] sq_in(q.pieces[i], s) && #[trigger] sq_in(q.pieces[j], s))
    &&& forall|s: int| !(#[trigger] sq_in(q.colors[0], s) && sq_in(q.colors[1], s))
    &&& forall|s: int| (sq_in(q.colors[0], s) || sq_in(q.colors[1], s)) == #[trigger] any_type(q, s)
    &&& forall|s: int| #[trigger] any_type(q, s) ==> fen_before(rank, file, s)
}

proof fn lemma_place_piece(q: Position, rank: int, file: int, pt: usize, col: usize)
    requires
        0 <= rank < 8,
        0 <= file < 8,
        pt < 6,
        col < 2,
        placed_so_far(q, rank, file),
    ensures
        placed_so_far(with_piece(q, pt, col, rank * 8 + file), rank, file + 1),
{
    let sq = rank * 8 + file;
    let q2 = with_piece(q, pt, col, sq);
    let b = bit_of(sq);
    assert forall|s: int| #[trigger] sq_in(b, s) == (s == sq) by {
        assert(sq_in(1u64 << (sq as u64), s) == (s == sq as u64));
    }
    assert(!any_type(q, sq));
    assert forall|s: int, i: int| 0 <= i < 6 implies #[trigger] sq_in(q2.pieces[i], s) == (sq_in(
        q.pieces[i],
        s,
    ) || (i == pt && s == sq)) by {
        if i == pt {
            assert(q2.pieces[i] == q.pieces[i] | b);
        } else {
            assert(q2.pieces[i] == q.pieces[i]);
        }
    }
    assert forall|s: int, i: int| 0 <= i < 2 implies #[trigger] sq_in(q2.colors[i], s) == (sq_in(
        q.colors[i],
        s,
    ) || (i == col && s == sq)) by {
        if i == col {
            assert(q2.colors[i] == q.colors[i] | b);
        } else {
            assert(q2.colors[i] == q.colors[i]);
        }
    }
    assert forall|s: int| #[trigger] any_type(q2, s) == (any_type(q, s) || s == sq) by {
        assert(sq_in(q2.pieces[0], s) == (sq_in(q.pieces[0], s) || (0 == pt && s == sq)));
        assert(sq_in(q2.pieces[1], s) == (sq_in(q.pieces[1], s) || (1 == pt && s == sq)));
        assert(sq_in(q2.pieces[2], s) == (sq_in(q.pieces[2], s) || (2 == pt && s == sq)));
        assert(sq_in(q2.pieces[3], s) == (sq_in(q.pieces[3], s) || (3 == pt && s == sq)));
        assert(sq_in(q2.pieces[4], s) == (sq_in(q.pieces[4], s) || (4 == pt && s == sq)));
        assert(sq_in(q2.pieces[5], s) == (sq_in(q.pieces[5], s) || (5 == pt && s == sq)));
    }
    assert forall|s: int| !(#[trigger] sq_in(q2.colors[0], s) && sq_in(q2.colors[1], s)) by {
        assert(sq_in(q2.colors[0], s) == (sq_in(q.colors[0], s) || (0 == col && s == sq)));
        assert(sq_in(q2.colors[1], s) == (sq_in(q.colors[1], s) || (1 == col && s == sq)));
        if s == sq {
            assert(!sq_in(q.colors[0], s) && !sq_in(q.colors[1], s));
        }
    }
    assert forall|s: int| (sq_in(q2.colors[0], s) || sq_in(q2.colors[1], s)) == #[trigger] any_type(q2, s) by {
        assert(sq_in(q2.colors[0], s) == (sq_in(q.colors[0], s) || (0 == col && s == sq)));
        assert(sq_in(q2.colors[1], s) == (sq_in(q.colors[1], s) || (1 == col && s == sq)));
    }
    assert forall|s: int, i: int, j: int|
        0 <= i < j < 6 implies !(#[trigger] sq_in(q2.pieces[i], s) && #[trigger] sq_in(q2.pieces[j], s)) by {
        assert(sq_in(q2.pieces[i], s) == (sq_in(q.pieces[i], s) || (i == pt && s == sq)));
        assert(sq_in(q2.pieces[j], s) == (sq_in(q.pieces[j], s) || (j == pt && s == sq)));
        if s == sq {
            assert(!sq_in(q.pieces[i], s) && !sq_in(q.pieces[j], s));
        }
    }
}

proof fn lemma_place_consistent(q: Position, rank: int, file: int, cs: Seq<char>)
    requires
        rank < 8,
        0 <= file,
        placed_so_far(q, rank, file),
    ensures
        place(q, rank, file, cs) matches Some(r) ==> placed_so_far(r, rank - 8, 0),
    decreases cs.len(),
{
    if cs.len() == 0 {
        assert forall|s: int| #[trigger] any_type(q, s) implies fen_before(rank - 8, 0, s) by {
            assert(fen_before(rank, file, s));
        }
    } else {
        let c = cs[0];
        let rest = cs.drop_first();
        if c == '/' {
            assert forall|s: int| #[trigger] any_type(q, s) implies fen_before(rank - 1, 0, s) by {
                assert(fen_before(rank, file, s));
            }
            lemma_place_consistent(q, rank - 1, 0, rest);
            if place(q, rank - 1, 0, rest) is Some {
                let r = place(q, rank - 1, 0, rest)->0;
                assert forall|s: int| #[trigger] any_type(r, s) implies fen_before(rank - 8, 0, s) by {
                    assert(fen_before(rank - 9, 0, s));
                }
            }
        } else if '1' <= c <= '8' {
            lemma_place_consistent(q, rank, file + (c as int - '0' as int), rest);
        } else if rank < 0 || file > 7 {
        } else {
            match piece_of_char(c) {
                Some((pt, col)) => {
                    lemma_place_piece(q, rank, file, pt, col);
                    lemma_place_consistent(with_piece(q, pt, col, rank * 8 + file), rank, file + 1, rest);
                },
                None => {},
            }
        }
    }
}

proof fn lemma_castling_bits(cs: Seq<char>)
    ensures
        castling_bits(cs) < 16,
    decreases cs.len(),
{
    if cs.len() > 0 {
        lemma_castling_bits(cs.drop_last());
        let x = castling_bits(cs.drop_last());
        let c = cs.last();
        let b: u8 = if c == 'K' {
            1
        } else if c == 'Q' {
            2
        } else if c == 'k' {
            4
        } else if c == 'q' {
            8
        } else {
            0
        };
        assert((x | b) < 16) by (bit_vector)
            requires
                x < 16,
                b < 16,
        ;
    }
}

/// Each castling letter grants the right that move generation reads for it:
/// 'K' White's king side (bit 1, castling e1g1), 'Q' White's queen side (bit 2,
/// e1c1), 'k' Black's king side (bit 4, e8g8) and 'q' Black's queen side
/// (bit 8, e8c8); a right is held exactly when its letter appears in the field.
pub proof fn law_castling_letters(cs: Seq<char>)
    ensures
        (castling_bits(cs) & 1 != 0) == cs.contains('K'),
        (castling_bits(cs) & 2 != 0) == cs.contains('Q'),
        (castling_bits(cs) & 4 != 0) == cs.contains('k'),
        (castling_bits(cs) & 8 != 0) == cs.contains('q'),
        castling_bits(cs) < 16,
    decreases cs.len(),
{
    lemma_castling_bits(cs);
    if cs.len() == 0 {
        assert(0u8 & 1 == 0 && 0u8 & 2 == 0 && 0u8 & 4 == 0 && 0u8 & 8 == 0) by (bit_vector);
    } else {
        let rest = cs.drop_last();
        law_castling_letters(rest);
        let x = castling_bits(rest);
        let c = cs.last();
        assert(forall|ch: char| cs.contains(ch) == (rest.contains(ch) || c == ch)) by {
            assert forall|ch: char| cs.contains(ch) implies rest.contains(ch) || c == ch by {
                let i = choose|i: int| 0 <= i < cs.len() && cs[i] == ch;
                if i < rest.len() {
                    assert(rest[i] == ch);
                }
            }
            assert forall|ch: char| rest.contains(ch) implies cs.contains(ch) by {
                let i = choose|i: int| 0 <= i < rest.len() && rest[i] == ch;
                assert(cs[i] == ch);
            }
            assert(cs[cs.len() - 1] == c);
        }
        assert(forall|y: u8|
            #![trigger y | 1u8]
            #![trigger y | 2u8]
            #![trigger y | 4u8]
            #![trigger y | 8u8]
            ((y | 1u8) & 1 != 0) && ((y | 1u8) & 2 == y & 2) && ((y | 1u8) & 4 == y & 4) && ((y
                | 1u8) & 8 == y & 8) && ((y | 2u8) & 2 != 0) && ((y | 2u8) & 1 == y & 1) && ((y
                | 2u8) & 4 == y & 4) && ((y | 2u8) & 8 == y & 8) && ((y | 4u8) & 4 != 0) && ((y
                | 4u8) & 1 == y & 1) && ((y | 4u8) & 2 == y & 2) && ((y | 4u8) & 8 == y & 8) && ((y
                | 8u8) & 8 != 0) && ((y | 8u8) & 1 == y & 1) && ((y | 8u8) & 2 == y & 2) && ((y
                | 8u8) & 4 == y & 4)) by (bit_vector);
        assert(x | 0u8 == x) by (bit_vector);
    }
}

/// Reading a FEN, the castling field decides the castling rights letter by
/// letter: White may castle king side exactly when the field holds 'K', queen
/// side when it holds 'Q', and Black likewise with 'k' and 'q'.
pub proof fn law_fen_castling_field(cs: Seq<char>)
    ensures
        spec_from_fen(cs) matches Some(p) ==> {
            let f = if words(cs).len() > 2 {
                words(cs)[2]
            } else {
                Seq::empty()
            };
            &&& (p.castling & 1 != 0) == f.contains('K')
            &&& (p.castling & 2 != 0) == f.contains('Q')
            &&& (p.castling & 4 != 0) == f.contains('k')
            &&& (p.castling & 8 != 0) == f.contains('q')
        },
{
    if words(cs).len() > 2 {
        law_castling_letters(words(cs)[2]);
    } else {
        law_castling_letters(Seq::empty());
        assert(castling_bits(Seq::empty()) == 0);
    }
}

/// Every position read from FEN text has consistent boards: no square on two
/// piece boards or both colour boards, piece and colour boards covering the
/// same squares, and castling rights within four bits.
pub proof fn law_fen_positions_consistent(cs: Seq<char>)
    ensures
        spec_from_fen(cs) matches Some(p) ==> consistent(p),
{
    let parts = words(cs);
    if parts.len() > 0 {
        let e = empty_position();
        assert forall|s: int| #[trigger] any_type(e, s) implies fen_before(7, 0, s) by {}
        assert(placed_so_far(e, 7, 0));
        lemma_place_consistent(e, 7, 0, parts[0]);
        if parts.len() > 2 {
            lemma_castling_bits(parts[2]);
        }
        if spec_from_fen(cs) is Some {
            let p = spec_from_fen(cs)->0;
            let q0 = place(e, 7, 0, parts[0])->0;
            assert(placed_so_far(q0, -1, 0));
            assert(p.pieces == q0.pieces && p.colors == q0.colors);
            assert forall|sq: int| #[trigger] any_type(p, sq) == any_type(q0, sq) by {}
            assert(p.castling < 16);
        }
    }
}

// ── What a move does to the boards ─────────────────────────────────

/// The squares a move touches agree with the boards: it starts on a piece of
/// the side to move and does not land on one; a pawn it takes en passant is an
/// enemy pawn beside an empty landing square; and the rook of a castling move
/// is the mover's own rook, going to an empty square, all squares distinct.
pub open spec fn move_fits(p: Position, m: Move) -> bool {
    let us = color_idx(p.side_to_move);
    let v = ep_victim(p, m);
    let (rf, rt) = castle_rook(p, m);
    &&& move_in_range(m)
    &&& m.from != m.to
    &&& sq_in(p.colors[us], m.from as int)
    &&& !sq_in(p.colors[us], m.to as int)
    &&& v >= 0 ==> v != m.from && v != m.to && sq_in(p.pieces[PAWN as int], v) && sq_in(
        p.colors[1 - us],
        v,
    ) && !any_type(p, m.to as int)
    &&& rf >= 0 ==> 0 <= rf < 64 && 0 <= rt < 64 && rf != rt && rf != m.from && rf != m.to && rt
        != m.from && rt != m.to && sq_in(p.pieces[ROOK as int], rf) && sq_in(p.colors[us], rf)
        && !any_type(p, rt)
}

proof fn lemma_type_of_occupied(p: Position, s: int, k: int, pt: int)
    requires
        0 <= k <= pt < 6,
        sq_in(p.pieces[pt], s),
        forall|i: int| k <= i < 6 && i != pt ==> !#[trigger] sq_in(p.pieces[i], s),
    ensures
        piece_type_from(p, s, k) == Some(pt as usize),
    decreases pt - k,
{
    if k < pt {
        lemma_type_of_occupied(p, s, k + 1, pt);
    }
}

/// Playing a move that fits the boards keeps consistent boards consistent.
pub proof fn law_fitting_move_keeps_consistency(p: Position, m: Move)
    requires
        consistent(p),
        move_fits(p, m),
    ensures
        consistent(spec_make_move(p, m)),
{
    let q = spec_make_move(p, m);
    let us = color_idx(p.side_to_move);
    let them = 1 - us;
    let from = m.from as int;
    let to = m.to as int;
    let v = ep_victim(p, m);
    let (rf, rt) = castle_rook(p, m);
    let pt = moved_type(p, m) as int;
    let arriving = match m.promotion {
        Some(pr) => pr as int,
        None => pt,
    };
    // the piece on the origin square is of the moved type
    assert(any_type(p, from));
    let t0 = choose|t: int| 0 <= t < 6 && sq_in(p.pieces[t], from);
    assert(0 <= t0 < 6 && sq_in(p.pieces[t0], from)) by {
        if sq_in(p.pieces[0], from) {
        } else if sq_in(p.pieces[1], from) {
        } else if sq_in(p.pieces[2], from) {
        } else if sq_in(p.pieces[3], from) {
        } else if sq_in(p.pieces[4], from) {
        } else {
        }
    }
    assert forall|i: int| 0 <= i < 6 && i != t0 implies !#[trigger] sq_in(p.pieces[i], from) by {
        if i < t0 {
            assert(!(sq_in(p.pieces[i], from) && sq_in(p.pieces[t0], from)));
        } else {
            assert(!(sq_in(p.pieces[t0], from) && sq_in(p.pieces[i], from)));
        }
    }
    lemma_type_of_occupied(p, from, 0, t0);
    assert(pt == t0);
    assert(0 <= arriving < 6);
    assert(v >= 0 ==> pt == PAWN);
    assert(rf >= 0 ==> pt == KING);
    // each board after the move, square by square
    assert forall|s: int, i: int| 0 <= i < 6 implies #[trigger] sq_in(q.pieces[i], s) == {
        let b1 = sq_in(p.pieces[i], s) && !(sq_in(p.colors[them], to) && s == to);
        let b2 = b1 && !(i == pt && s == from);
        let b3 = b2 || (i == arriving && s == to);
        let b4 = b3 && !(v >= 0 && i == PAWN && s == v);
        if rf >= 0 && i == ROOK {
            (b4 && s != rf) || s == rt
        } else {
            b4
        }
    } by {
        assert(q.pieces[i] == pieces_after(p, m, i));
        if 0 <= s < 64 {
            assert(sq_in(bit_of(to), s) == (s == to));
            assert(sq_in(bit_of(from), s) == (s == from));
            if v >= 0 {
                assert(sq_in(bit_of(v), s) == (s == v));
            }
            if rf >= 0 {
                assert(sq_in(bit_of(rf), s) == (s == rf));
                assert(sq_in(bit_of(rt), s) == (s == rt));
            }
        }
    }
    lemma_colors_after(p, m);
    assert(q.colors[0] == q.colors[us] || q.colors[0] == q.colors[them]);
    // square by square, the three agreements
    assert forall|s: int| !(#[trigger] sq_in(q.colors[0], s) && sq_in(q.colors[1], s)) by {
        assert(!(sq_in(p.colors[0], s) && sq_in(p.colors[1], s)));
        assert(sq_in(q.colors[us], s) == sq_in(q.colors[us], s));
        assert(sq_in(q.colors[them], s) == sq_in(q.colors[them], s));
    }
    assert forall|s: int, i: int, j: int|
        0 <= i < j < 6 implies !(#[trigger] sq_in(q.pieces[i], s) && #[trigger] sq_in(q.pieces[j], s)) by {
        assert(!(sq_in(p.pieces[i], s) && sq_in(p.pieces[j], s)));
        assert(sq_in(q.pieces[i], s) == sq_in(q.pieces[i], s));
        assert(sq_in(q.pieces[j], s) == sq_in(q.pieces[j], s));
        assert(any_type(p, s) == (sq_in(p.colors[0], s) || sq_in(p.colors[1], s)));
        if s == to {
            if !sq_in(p.colors[them], to) {
                assert(!any_type(p, to));
            }
        } else if s == from {
            assert(!sq_in(p.pieces[i], s) || i == pt);
            assert(!sq_in(p.pieces[j], s) || j == pt);
        } else if v >= 0 && s == v {
            assert(!(sq_in(p.pieces[PAWN as int], s) && sq_in(p.pieces[i], s)) || i == PAWN);
            assert(!(sq_in(p.pieces[PAWN as int], s) && sq_in(p.pieces[j], s)) || j == PAWN);
        } else if rf >= 0 && s == rf {
            assert(!(sq_in(p.pieces[ROOK as int], s) && sq_in(p.pieces[i], s)) || i == ROOK);
            assert(!(sq_in(p.pieces[ROOK as int], s) && sq_in(p.pieces[j], s)) || j == ROOK);
        } else if rf >= 0 && s == rt {
            assert(!any_type(p, rt));
        }
    }
    assert forall|s: int| (sq_in(q.colors[0], s) || sq_in(q.colors[1], s)) == #[trigger] any_type(q, s) by {
        assert(any_type(p, s) == (sq_in(p.colors[0], s) || sq_in(p.colors[1], s)));
        assert(!(sq_in(p.colors[0], s) && sq_in(p.colors[1], s)));
        assert(sq_in(q.pieces[0], s) == sq_in(q.pieces[0], s));
        assert(sq_in(q.pieces[1], s) == sq_in(q.pieces[1], s));
        assert(sq_in(q.pieces[2], s) == sq_in(q.pieces[2], s));
        assert(sq_in(q.pieces[3], s) == sq_in(q.pieces[3], s));
        assert(sq_in(q.pieces[4], s) == sq_in(q.pieces[4], s));
        assert(sq_in(q.pieces[5], s) == sq_in(q.pieces[5], s));
        assert(sq_in(q.colors[us], s) == sq_in(q.colors[us], s));
        assert(sq_in(q.colors[them], s) == sq_in(q.colors[them], s));
    }
    lemma_castling_only_drops(p, m);
    let c = p.castling;
    let c2 = q.castling;
    assert(c2 < 16) by (bit_vector)
        requires
            c2 & !c == 0,
            c < 16,
    ;
}

/// What lies in a concatenation lies in one of its parts.
proof fn lemma_in_concat(a: Seq<Move>, b: Seq<Move>, m: Move)
    requires
        (a + b).contains(m),
    ensures
        a.contains(m) || b.contains(m),
{
    let k = choose|k: int| 0 <= k < (a + b).len() && (a + b)[k] == m;
    if k < a.len() {
        assert(a[k] == m);
    } else {
        assert(b[k - a.len()] == m);
    }
}

/// A target move of a piece goes to a square the piece may go to.
proof fn lemma_in_targets(p: Position, pt: usize, from: int, n: int, m: Move)
    requires
        piece_targets(p, pt, from, n).contains(m),
    ensures
        m == quiet(from, m.to as int),
        piece_may_go(p, pt, from, m.to as int),
    decreases n,
{
    if n > 0 {
        let a = piece_targets(p, pt, from, n - 1);
        let b = if piece_may_go(p, pt, from, n - 1) {
            seq![quiet(from, n - 1)]
        } else {
            seq![]
        };
        lemma_in_concat(a, b, m);
        if a.contains(m) {
            lemma_in_targets(p, pt, from, n - 1, m);
        } else {
            assert(b[0] == m);
        }
    }
}

/// A move of a piece of type `pt` starts on such a piece of the side to move,
/// below square `n`, and goes where that piece may go.
proof fn lemma_in_piece_moves(p: Position, pt: usize, n: int, m: Move)
    requires
        n <= 64,
        piece_moves(p, pt, n).contains(m),
    ensures
        0 <= m.from < n,
        sq_in(p.pieces[pt as int], m.from as int),
        sq_in(own_board(p), m.from as int),
        piece_may_go(p, pt, m.from as int, m.to as int),
        m.promotion is None,
    decreases n,
{
    if n > 0 {
        let a = piece_moves(p, pt, n - 1);
        let b = if sq_in(p.pieces[pt as int] & own_board(p), n - 1) {
            piece_targets(p, pt, n - 1, 64)
        } else {
            seq![]
        };
        lemma_in_concat(a, b, m);
        if a.contains(m) {
            lemma_in_piece_moves(p, pt, n - 1, m);
        } else {
            lemma_in_targets(p, pt, n - 1, 64, m);
            assert(0 <= n - 1 < 64);
            assert(m.from == (n - 1) as u8);
        }
    }
}

/// A pawn capture goes diagonally forward onto an enemy piece.
proof fn lemma_in_captures(p: Position, from: int, n: int, m: Move)
    requires
        pawn_captures(p, from, n).contains(m),
    ensures
        m.from == from as u8,
        0 <= m.to < n,
        pawn_step(from, p.side_to_move, m.to as int),
        sq_in(enemy_board(p), m.to as int),
        m.promotion matches Some(pr) ==> pr == QUEEN || pr == ROOK || pr == BISHOP || pr == KNIGHT,
    decreases n,
{
    if n > 0 {
        let t = n - 1;
        let last = if p.side_to_move == Color::White {
            7int
        } else {
            0int
        };
        let a = pawn_captures(p, from, n - 1);
        let b = if pawn_step(from, p.side_to_move, t) && sq_in(enemy_board(p), t) {
            if rank_of(t) == last {
                promotions(from, t)
            } else {
                seq![quiet(from, t)]
            }
        } else {
            seq![]
        };
        lemma_in_concat(a, b, m);
        if a.contains(m) {
            lemma_in_captures(p, from, n - 1, m);
        } else {
            let k = choose|k: int| 0 <= k < b.len() && b[k] == m;
            assert(sq_in(enemy_board(p), t) ==> 0 <= t < 64);
        }
    }
}

/// A pawn push goes one square forward onto an empty square, or two from the
/// home rank over an empty square onto an empty one.
proof fn lemma_in_pushes(p: Position, s: int, m: Move)
    requires
        pawn_pushes(p, s).contains(m),
    ensures
        m.from == s as u8,
        ({
            let dir = if p.side_to_move == Color::White {
                8int
            } else {
                -8int
            };
            &&& 0 <= m.to < 64
            &&& !sq_in(occupancy(p), m.to as int)
            &&& !sq_in(occupancy(p), s + dir)
            &&& (m.to == s + dir || m.to == s + 2 * dir)
            &&& (m.to == s + 2 * dir ==> m.promotion is None)
        }),
        m.promotion matches Some(pr) ==> pr == QUEEN || pr == ROOK || pr == BISHOP || pr == KNIGHT,
{
    let white = p.side_to_move == Color::White;
    let to = if white {
        s + 8
    } else {
        s - 8
    };
    if 0 <= to < 64 && !sq_in(occupancy(p), to) {
        let single = if rank_of(to) == (if white {
            7int
        } else {
            0int
        }) {
            promotions(s, to)
        } else {
            seq![quiet(s, to)]
        };
        let to2 = if white {
            s + 16
        } else {
            s - 16
        };
        let double = if rank_of(s) == (if white {
            1int
        } else {
            6int
        }) && 0 <= to2 < 64 && !sq_in(occupancy(p), to2) {
            seq![quiet(s, to2)]
        } else {
            seq![]
        };
        lemma_in_concat(single, double, m);
        if single.contains(m) {
            let k = choose|k: int| 0 <= k < single.len() && single[k] == m;
        } else {
            assert(double[0] == m);
        }
    }
}

/// A pawn move starts on a pawn of the side to move and is a push, a capture
/// or the en passant capture of that pawn.
proof fn lemma_in_pawn_moves(p: Position, n: int, m: Move)
    requires
        n <= 64,
        pawn_moves(p, n).contains(m),
    ensures
        0 <= m.from < n,
        sq_in(p.pieces[PAWN as int], m.from as int),
        sq_in(own_board(p), m.from as int),
        pawn_pushes(p, m.from as int).contains(m) || pawn_captures(p, m.from as int, 64).contains(m)
            || pawn_en_passant(p, m.from as int).contains(m),
    decreases n,
{
    if n > 0 {
        let s = n - 1;
        let a = pawn_moves(p, n - 1);
        let b = if sq_in(p.pieces[PAWN as int] & own_board(p), s) {
            pawn_pushes(p, s) + pawn_captures(p, s, 64) + pawn_en_passant(p, s)
        } else {
            seq![]
        };
        lemma_in_concat(a, b, m);
        if a.contains(m) {
            lemma_in_pawn_moves(p, n - 1, m);
        } else {
            assert(b.len() > 0);
            lemma_in_concat(pawn_pushes(p, s) + pawn_captures(p, s, 64), pawn_en_passant(p, s), m);
            if (pawn_pushes(p, s) + pawn_captures(p, s, 64)).contains(m) {
                lemma_in_concat(pawn_pushes(p, s), pawn_captures(p, s, 64), m);
                if pawn_pushes(p, s).contains(m) {
                    lemma_in_pushes(p, s, m);
                } else {
                    lemma_in_captures(p, s, 64, m);
                }
            } else {
                assert(pawn_en_passant(p, s).contains(m));
                assert(pawn_en_passant(p, s)[0] == m);
            }
            assert(0 <= s < 64);
            assert(m.from == s as u8);
        }
    }
}

/// Piece type `t` of colour index `c` stands on `s`.
pub open spec fn piece_on(p: Position, t: int, c: int, s: int) -> bool {
    sq_in(p.pieces[t], s) && sq_in(p.colors[c], s)
}

/// The castling rights and the en passant square agree with the boards: each
/// right held has that side's king and rook on their starting squares, and an
/// en passant square is an empty square with an enemy pawn just past it (the
/// pawn that stepped over it).
pub open spec fn rights_fit(p: Position) -> bool {
    &&& (p.castling & 1 != 0 ==> piece_on(p, KING as int, 0, 4) && piece_on(p, ROOK as int, 0, 7))
    &&& (p.castling & 2 != 0 ==> piece_on(p, KING as int, 0, 4) && piece_on(p, ROOK as int, 0, 0))
    &&& (p.castling & 4 != 0 ==> piece_on(p, KING as int, 1, 60) && piece_on(p, ROOK as int, 1, 63))
    &&& (p.castling & 8 != 0 ==> piece_on(p, KING as int, 1, 60) && piece_on(p, ROOK as int, 1, 56))
    &&& (p.en_passant matches Some(e) ==> {
        let v = if p.side_to_move == Color::White {
            e - 8
        } else {
            e + 8
        };
        &&& e < 64
        &&& 0 <= v < 64
        &&& !any_type(p, e as int)
        &&& piece_on(p, PAWN as int, 1 - color_idx(p.side_to_move), v)
    })
}

/// In consistent boards, a square on piece board `t` holds a piece of type `t`.
proof fn lemma_type_at(p: Position, s: int, t: int)
    requires
        consistent(p),
        0 <= t < 6,
        sq_in(p.pieces[t], s),
    ensures
        piece_type_from(p, s, 0) == Some(t as usize),
{
    assert forall|i: int| 0 <= i < 6 && i != t implies !#[trigger] sq_in(p.pieces[i], s) by {
        if i < t {
            assert(!(sq_in(p.pieces[i], s) && sq_in(p.pieces[t], s)));
        } else {
            assert(!(sq_in(p.pieces[t], s) && sq_in(p.pieces[i], s)));
        }
    }
    lemma_type_of_occupied(p, s, 0, t);
}

/// In a position whose boards, castling rights and en passant square agree,
/// every legal move fits the boards, and so playing it keeps them consistent.
pub proof fn law_legal_move_keeps_consistency(p: Position, m: Move)
    requires
        consistent(p),
        rights_fit(p),
        spec_legal_moves(p).contains(m),
    ensures
        move_fits(p, m),
        consistent(spec_make_move(p, m)),
{
    law_legal_moves(p, m);
    let us = color_idx(p.side_to_move);
    let them = 1 - us;
    let pw = pawn_moves(p, 64);
    let kn = piece_moves(p, KNIGHT, 64);
    let bi = piece_moves(p, BISHOP, 64);
    let ro = piece_moves(p, ROOK, 64);
    let qu = piece_moves(p, QUEEN, 64);
    let ki = piece_moves(p, KING, 64);
    let ca = castling_moves(p);
    assert(pseudo_legal(p) == pw + kn + bi + ro + qu + ki + ca);
    lemma_in_concat(pw + kn + bi + ro + qu + ki, ca, m);
    if ca.contains(m) {
        let k = choose|k: int| 0 <= k < ca.len() && ca[k] == m;
        if p.side_to_move == Color::White {
            if m.to == 6 {
                assert(p.castling & 1 != 0);
                lemma_type_at(p, 4, KING as int);
            } else {
                assert(p.castling & 2 != 0);
                lemma_type_at(p, 4, KING as int);
            }
        } else {
            if m.to == 62 {
                assert(p.castling & 4 != 0);
                lemma_type_at(p, 60, KING as int);
            } else {
                assert(p.castling & 8 != 0);
                lemma_type_at(p, 60, KING as int);
            }
        }
    } else {
        lemma_in_concat(pw + kn + bi + ro + qu, ki, m);
        if ki.contains(m) {
            lemma_in_piece_moves(p, KING, 64, m);
            lemma_type_at(p, m.from as int, KING as int);
        } else {
            lemma_in_concat(pw + kn + bi + ro, qu, m);
            if qu.contains(m) {
                lemma_in_piece_moves(p, QUEEN, 64, m);
                lemma_type_at(p, m.from as int, QUEEN as int);
            } else {
                lemma_in_concat(pw + kn + bi, ro, m);
                if ro.contains(m) {
                    lemma_in_piece_moves(p, ROOK, 64, m);
                    lemma_type_at(p, m.from as int, ROOK as int);
                } else {
                    lemma_in_concat(pw + kn, bi, m);
                    if bi.contains(m) {
                        lemma_in_piece_moves(p, BISHOP, 64, m);
                        lemma_type_at(p, m.from as int, BISHOP as int);
                    } else {
                        lemma_in_concat(pw, kn, m);
                        if kn.contains(m) {
                            lemma_in_piece_moves(p, KNIGHT, 64, m);
                            lemma_type_at(p, m.from as int, KNIGHT as int);
                        } else {
                            lemma_in_pawn_moves(p, 64, m);
                            lemma_type_at(p, m.from as int, PAWN as int);
                            let from = m.from as int;
                            if pawn_pushes(p, from).contains(m) {
                                lemma_in_pushes(p, from, m);
                            } else if pawn_captures(p, from, 64).contains(m) {
                                lemma_in_captures(p, from, 64, m);
                            } else {
                                assert(pawn_en_passant(p, from)[0] == m);
                            }
                        }
                    }
                }
            }
        }
    }
    assert(move_fits(p, m));
    law_fitting_move_keeps_consistency(p, m);
}

// ── Positions reached by play ──────────────────────────────────────

/// Side `c` has one king, on square `k`.
pub open spec fn king_alone(p: Position, c: Color, k: int) -> bool {
    &&& 0 <= k < 64
    &&& forall|s: int| #[trigger] sq_in(p.pieces[KING as int] & p.colors[color_idx(c)], s) == (s == k)
}

/// Side `c` has exactly one king.
pub open spec fn one_king(p: Position, c: Color) -> bool {
    exists|k: int| king_alone(p, c, k)
}

/// A lone king stands on the side's king square.
proof fn lemma_king_alone(p: Position, c: Color, k: int)
    requires
        king_alone(p, c, k),
    ensures
        king_square(p, c) == k,
{
    let b = p.pieces[KING as int] & p.colors[color_idx(c)];
    lemma_first_sq_from(b, 0);
    assert(sq_in(b, k));
    assert(first_sq_from(b, 0) < 64 ==> sq_in(b, first_sq_from(b, 0)));
}

/// The piece boards after a move, square by square.
proof fn lemma_pieces_after(p: Position, m: Move)
    requires
        move_in_range(m),
    ensures
        ({
            let q = spec_make_move(p, m);
            let them = 1 - color_idx(p.side_to_move);
            let from = m.from as int;
            let to = m.to as int;
            let pt = moved_type(p, m) as int;
            let arriving = match m.promotion {
                Some(pr) => pr as int,
                None => pt,
            };
            let v = ep_victim(p, m);
            let (rf, rt) = castle_rook(p, m);
            forall|s: int, i: int| 0 <= i < 6 ==> #[trigger] sq_in(q.pieces[i], s) == {
                let b1 = sq_in(p.pieces[i], s) && !(sq_in(p.colors[them], to) && s == to);
                let b2 = b1 && !(i == pt && s == from);
                let b3 = b2 || (i == arriving && s == to);
                let b4 = b3 && !(v >= 0 && i == PAWN && s == v);
                if rf >= 0 && i == ROOK {
                    (b4 && s != rf) || s == rt
                } else {
                    b4
                }
            }
        }),
{
    let q = spec_make_move(p, m);
    let from = m.from as int;
    let to = m.to as int;
    let v = ep_victim(p, m);
    let (rf, rt) = castle_rook(p, m);
    assert forall|s: int, i: int| 0 <= i < 6 implies #[trigger] sq_in(q.pieces[i], s) == {
        let them = 1 - color_idx(p.side_to_move);
        let pt = moved_type(p, m) as int;
        let arriving = match m.promotion {
            Some(pr) => pr as int,
            None => pt,
        };
        let b1 = sq_in(p.pieces[i], s) && !(sq_in(p.colors[them], to) && s == to);
        let b2 = b1 && !(i == pt && s == from);
        let b3 = b2 || (i == arriving && s == to);
        let b4 = b3 && !(v >= 0 && i == PAWN && s == v);
        if rf >= 0 && i == ROOK {
            (b4 && s != rf) || s == rt
        } else {
            b4
        }
    } by {
        assert(q.pieces[i] == pieces_after(p, m, i));
        if 0 <= s < 64 {
            assert(sq_in(bit_of(to), s) == (s == to));
            assert(sq_in(bit_of(from), s) == (s == from));
            if v >= 0 {
                assert(sq_in(bit_of(v), s) == (s == v));
            }
            if rf >= 0 {
                assert(sq_in(bit_of(rf), s) == (s == rf));
                assert(sq_in(bit_of(rt), s) == (s == rt));
            }
        }
    }
}

/// In consistent boards, the piece on an occupied square is of one type only.
proof fn lemma_only_type(p: Position, s: int, t: int)
    requires
        consistent(p),
        0 <= t < 6,
        sq_in(p.pieces[t], s),
    ensures
        forall|i: int| 0 <= i < 6 ==> #[trigger] sq_in(p.pieces[i], s) == (i == t),
        piece_type_from(p, s, 0) == Some(t as usize),
{
    lemma_type_at(p, s, t);
    assert forall|i: int| 0 <= i < 6 implies #[trigger] sq_in(p.pieces[i], s) == (i == t) by {
        if i < t {
            assert(!(sq_in(p.pieces[i], s) && sq_in(p.pieces[t], s)));
        } else if i > t {
            assert(!(sq_in(p.pieces[t], s) && sq_in(p.pieces[i], s)));
        }
    }
}

/// A castling right survives a move only if it was held, the move neither
/// starts nor ends on that right's rook square, and it is not a king move by
/// that right's side.
proof fn lemma_castling_after_bits(p: Position, m: Move)
    ensures
        ({
            let c = castling_after(p, m);
            let white = p.side_to_move == Color::White;
            let king = moved_type(p, m) == KING;
            &&& c & 1 != 0 ==> p.castling & 1 != 0 && m.from != 7 && m.to != 7 && !(king && white)
            &&& c & 2 != 0 ==> p.castling & 2 != 0 && m.from != 0 && m.to != 0 && !(king && white)
            &&& c & 4 != 0 ==> p.castling & 4 != 0 && m.from != 63 && m.to != 63 && !(king && !white)
            &&& c & 8 != 0 ==> p.castling & 8 != 0 && m.from != 56 && m.to != 56 && !(king && !white)
        }),
{
    assert(forall|c: u8|
        #![trigger c & !3u8]
        (c & !3u8) & 1 == 0 && (c & !3u8) & 2 == 0 && (c & !3u8) & 4 == c & 4 && (c & !3u8) & 8 == c
            & 8) by (bit_vector);
    assert(forall|c: u8|
        #![trigger c & !12u8]
        (c & !12u8) & 4 == 0 && (c & !12u8) & 8 == 0 && (c & !12u8) & 1 == c & 1 && (c & !12u8) & 2
            == c & 2) by (bit_vector);
    assert(forall|c: u8|
        #![trigger c & !2u8]
        (c & !2u8) & 2 == 0 && (c & !2u8) & 1 == c & 1 && (c & !2u8) & 4 == c & 4 && (c & !2u8) & 8
            == c & 8) by (bit_vector);
    assert(forall|c: u8|
        #![trigger c & !1u8]
        (c & !1u8) & 1 == 0 && (c & !1u8) & 2 == c & 2 && (c & !1u8) & 4 == c & 4 && (c & !1u8) & 8
            == c & 8) by (bit_vector);
    assert(forall|c: u8|
        #![trigger c & !8u8]
        (c & !8u8) & 8 == 0 && (c & !8u8) & 1 == c & 1 && (c & !8u8) & 2 == c & 2 && (c & !8u8) & 4
            == c & 4) by (bit_vector);
    assert(forall|c: u8|
        #![trigger c & !4u8]
        (c & !4u8) & 4 == 0 && (c & !4u8) & 1 == c & 1 && (c & !4u8) & 2 == c & 2 && (c & !4u8) & 8
            == c & 8) by (bit_vector);
}

/// The shape of a pseudo-legal move in boards whose rights agree with them: it
/// promotes, if at all, to a queen, rook, bishop or knight; it moves a king two
/// files only when castling from the king's home square; a pawn's double step
/// promotes to nothing and passes over an empty square; and a piece it takes
/// stands on a square the side to move attacks.
proof fn lemma_pseudo_shape(p: Position, m: Move)
    requires
        consistent(p),
        rights_fit(p),
        one_king(p, p.side_to_move),
        pseudo_legal(p).contains(m),
    ensures
        m.promotion matches Some(pr) ==> pr == QUEEN || pr == ROOK || pr == BISHOP || pr == KNIGHT,
        castle_rook(p, m).0 >= 0 ==> (p.side_to_move == Color::White && m.from == 4 && (m.to == 6
            || m.to == 2)) || (p.side_to_move == Color::Black && m.from == 60 && (m.to == 62 || m.to
            == 58)),
        moved_type(p, m) == PAWN && abs_diff(m.to as int, m.from as int) == 16 ==> m.promotion is None
            && !sq_in(occupancy(p), (m.from + m.to) / 2) && m.to == m.from + (if p.side_to_move
            == Color::White {
            16int
        } else {
            -16int
        }),
        moved_type(p, m) != PAWN ==> m.promotion is None,
        sq_in(enemy_board(p), m.to as int) ==> spec_attacked(p, p.side_to_move, m.to as int),
{
    let us = color_idx(p.side_to_move);
    let from = m.from as int;
    let to = m.to as int;
    let k = choose|k: int| king_alone(p, p.side_to_move, k);
    let pw = pawn_moves(p, 64);
    let kn = piece_moves(p, KNIGHT, 64);
    let bi = piece_moves(p, BISHOP, 64);
    let ro = piece_moves(p, ROOK, 64);
    let qu = piece_moves(p, QUEEN, 64);
    let ki = piece_moves(p, KING, 64);
    let ca = castling_moves(p);
    assert(pseudo_legal(p) == pw + kn + bi + ro + qu + ki + ca);
    assert(sq_in(enemy_board(p), to) ==> sq_in(occupancy(p), to));
    lemma_in_concat(pw + kn + bi + ro + qu + ki, ca, m);
    if ca.contains(m) {
        let i = choose|i: int| 0 <= i < ca.len() && ca[i] == m;
        assert(empty_sq(p, to));
    } else {
        lemma_in_concat(pw + kn + bi + ro + qu, ki, m);
        if ki.contains(m) {
            lemma_in_piece_moves(p, KING, 64, m);
            lemma_type_at(p, from, KING as int);
            assert(sq_in(p.pieces[KING as int] & p.colors[us], from));
            assert(from == k);
            lemma_king_alone(p, p.side_to_move, k);
            assert(king_step(from, to));
            assert(castle_rook(p, m).0 < 0);
        } else {
            lemma_in_concat(pw + kn + bi + ro, qu, m);
            if !qu.contains(m) {
                lemma_in_concat(pw + kn + bi, ro, m);
                if !ro.contains(m) {
                    lemma_in_concat(pw + kn, bi, m);
                    if !bi.contains(m) {
                        lemma_in_concat(pw, kn, m);
                    }
                }
            }
            let pt = if qu.contains(m) {
                QUEEN
            } else if ro.contains(m) {
                ROOK
            } else if bi.contains(m) {
                BISHOP
            } else if kn.contains(m) {
                KNIGHT
            } else {
                PAWN
            };
            if pt != PAWN {
                lemma_in_piece_moves(p, pt, 64, m);
                lemma_type_at(p, from, pt as int);
                assert(sq_in(p.pieces[pt as int] & p.colors[us], from));
                assert(attacks_from(p, p.side_to_move, from, to));
            } else {
                lemma_in_pawn_moves(p, 64, m);
                lemma_type_at(p, from, PAWN as int);
                if pawn_pushes(p, from).contains(m) {
                    lemma_in_pushes(p, from, m);
                } else if pawn_captures(p, from, 64).contains(m) {
                    lemma_in_captures(p, from, 64, m);
                    assert(sq_in(p.pieces[PAWN as int] & p.colors[us], from));
                    assert(attacks_from(p, p.side_to_move, from, to));
                } else {
                    assert(pawn_en_passant(p, from)[0] == m);
                    assert(!any_type(p, to));
                }
            }
        }
    }
}

/// The boards agree, the castling rights and en passant square agree with
/// them, each side has exactly one king, and the side that has just moved is
/// not in check: what every position reached by legal play keeps.
pub open spec fn sound_position(p: Position) -> bool {
    &&& consistent(p)
    &&& rights_fit(p)
    &&& one_king(p, Color::White)
    &&& one_king(p, Color::Black)
    &&& !spec_in_check(p, opposite(p.side_to_move))
}

/// A move touches its origin and target, the pawn it takes en passant and the
/// squares of a castling rook; every other square keeps what it held.
proof fn lemma_square_untouched(p: Position, m: Move, s: int)
    requires
        move_in_range(m),
        s != m.from,
        s != m.to,
        s != ep_victim(p, m),
        s != castle_rook(p, m).0,
        s != castle_rook(p, m).1,
    ensures
        forall|i: int| 0 <= i < 6 ==> #[trigger] sq_in(spec_make_move(p, m).pieces[i], s) == sq_in(
            p.pieces[i],
            s,
        ),
        sq_in(spec_make_move(p, m).colors[0], s) == sq_in(p.colors[0], s),
        sq_in(spec_make_move(p, m).colors[1], s) == sq_in(p.colors[1], s),
{
    lemma_pieces_after(p, m);
    lemma_colors_after(p, m);
    let us = color_idx(p.side_to_move);
    assert(sq_in(spec_make_move(p, m).colors[us], s) == sq_in(p.colors[us], s));
    assert(sq_in(spec_make_move(p, m).colors[1 - us], s) == sq_in(p.colors[1 - us], s));
}

/// In a sound position a legal move never lands on the other side's king: the
/// king would stand on a square the mover attacks, in check with the mover to
/// play.
proof fn lemma_king_not_taken(p: Position, m: Move, kt: int)
    requires
        sound_position(p),
        pseudo_legal(p).contains(m),
        king_alone(p, opposite(p.side_to_move), kt),
    ensures
        m.to != kt,
{
    let usc = p.side_to_move;
    let themc = opposite(usc);
    assert(one_king(p, usc)) by {
        if usc == Color::White {
        } else {
        }
    }
    lemma_pseudo_shape(p, m);
    lemma_king_alone(p, themc, kt);
    if m.to == kt {
        assert(sq_in(p.pieces[KING as int] & p.colors[color_idx(themc)], kt));
        assert(color_idx(themc) == 1 - color_idx(usc));
        assert(sq_in(enemy_board(p), kt));
        assert(opposite(themc) == usc);
        assert(spec_in_check(p, themc));
    }
}

/// What a legal move in a sound position is known to do, gathered for the
/// proofs below.
proof fn lemma_play_facts(p: Position, m: Move)
    requires
        sound_position(p),
        spec_legal_moves(p).contains(m),
    ensures
        move_fits(p, m),
        consistent(spec_make_move(p, m)),
        !spec_in_check(spec_make_move(p, m), p.side_to_move),
        one_king(p, p.side_to_move),
        one_king(p, opposite(p.side_to_move)),
        color_idx(opposite(p.side_to_move)) == 1 - color_idx(p.side_to_move),
        0 <= moved_type(p, m) < 6,
        forall|i: int|
            0 <= i < 6 ==> #[trigger] sq_in(p.pieces[i], m.from as int) == (i == moved_type(p, m)),
        m.promotion matches Some(pr) ==> pr == QUEEN || pr == ROOK || pr == BISHOP || pr == KNIGHT,
        moved_type(p, m) != PAWN ==> m.promotion is None,
        castle_rook(p, m).0 >= 0 ==> moved_type(p, m) == KING,
        castle_rook(p, m).0 >= 0 ==> (p.side_to_move == Color::White && m.from == 4 && (m.to == 6
            || m.to == 2)) || (p.side_to_move == Color::Black && m.from == 60 && (m.to == 62 || m.to
            == 58)),
        moved_type(p, m) == PAWN && abs_diff(m.to as int, m.from as int) == 16 ==> m.promotion is None
            && !sq_in(occupancy(p), (m.from + m.to) / 2) && m.to == m.from + (if p.side_to_move
            == Color::White {
            16int
        } else {
            -16int
        }),
        forall|kt: int| king_alone(p, opposite(p.side_to_move), kt) ==> m.to != kt,
        ep_victim(p, m) >= 0 ==> forall|i: int|
            0 <= i < 6 ==> #[trigger] sq_in(p.pieces[i], ep_victim(p, m)) == (i == PAWN),
{
    let usc = p.side_to_move;
    let themc = opposite(usc);
    let from = m.from as int;
    law_legal_move_keeps_consistency(p, m);
    law_legal_moves(p, m);
    assert(one_king(p, usc) && one_king(p, themc)) by {
        if usc == Color::White {
        } else {
        }
    }
    lemma_pseudo_shape(p, m);
    assert forall|kt: int| king_alone(p, themc, kt) implies m.to != kt by {
        lemma_king_not_taken(p, m, kt);
    }
    assert(any_type(p, from));
    let t0 = choose|t: int| 0 <= t < 6 && sq_in(p.pieces[t], from);
    assert(0 <= t0 < 6 && sq_in(p.pieces[t0], from)) by {
        if sq_in(p.pieces[0], from) {
        } else if sq_in(p.pieces[1], from) {
        } else if sq_in(p.pieces[2], from) {
        } else if sq_in(p.pieces[3], from) {
        } else if sq_in(p.pieces[4], from) {
        } else {
        }
    }
    lemma_only_type(p, from, t0);
    let v = ep_victim(p, m);
    if v >= 0 {
        lemma_only_type(p, v, PAWN as int);
    }
}

/// After a legal move in a sound position each side still has one king.
proof fn lemma_kings_kept(p: Position, m: Move)
    requires
        sound_position(p),
        spec_legal_moves(p).contains(m),
    ensures
        one_king(spec_make_move(p, m), Color::White),
        one_king(spec_make_move(p, m), Color::Black),
{
    let q = spec_make_move(p, m);
    let usc = p.side_to_move;
    let themc = opposite(usc);
    let us = color_idx(usc);
    let them = 1 - us;
    let from = m.from as int;
    let to = m.to as int;
    lemma_play_facts(p, m);
    lemma_pieces_after(p, m);
    lemma_colors_after(p, m);
    let ku = choose|k: int| king_alone(p, usc, k);
    let kt = choose|k: int| king_alone(p, themc, k);
    let v = ep_victim(p, m);
    let (rf, rt) = castle_rook(p, m);
    let pt = moved_type(p, m) as int;
    assert(sq_in(p.pieces[KING as int] & p.colors[them], kt));
    assert(sq_in(p.pieces[KING as int] & p.colors[us], ku));
    assert(v >= 0 ==> v != kt && v != ku);
    assert(kt != from) by {
        assert(!(sq_in(p.colors[0], from) && sq_in(p.colors[1], from)));
    }
    assert(ku != to);
    let nku = if pt == KING {
        to
    } else {
        ku
    };
    assert(pt == KING ==> from == ku) by {
        if pt == KING {
            assert(sq_in(p.pieces[KING as int] & p.colors[us], from));
        }
    }
    assert(pt != KING ==> ku != from);
    assert(rf >= 0 ==> !any_type(p, rt));
    assert forall|s: int| #[trigger] sq_in(q.pieces[KING as int] & q.colors[us], s) == (s == nku) by {
        assert(sq_in(q.pieces[KING as int], s) == sq_in(q.pieces[KING as int], s));
        assert(sq_in(q.colors[us], s) == sq_in(q.colors[us], s));
        assert(sq_in(p.pieces[KING as int] & p.colors[us], s) == (s == ku));
        assert(any_type(p, s) == (sq_in(p.colors[0], s) || sq_in(p.colors[1], s)));
    }
    assert forall|s: int| #[trigger] sq_in(q.pieces[KING as int] & q.colors[them], s) == (s == kt) by {
        assert(sq_in(q.pieces[KING as int], s) == sq_in(q.pieces[KING as int], s));
        assert(sq_in(q.colors[them], s) == sq_in(q.colors[them], s));
        assert(sq_in(p.pieces[KING as int] & p.colors[them], s) == (s == kt));
        assert(!(sq_in(p.colors[0], s) && sq_in(p.colors[1], s)));
    }
    assert(king_alone(q, usc, nku));
    assert(king_alone(q, themc, kt));
    if usc == Color::White {
    } else {
    }
}

/// After a legal move in a sound position a castling right still held (bit `b`
/// of side `c`) still has its king on `ks` and its rook on `rs`.
proof fn lemma_right_kept(p: Position, m: Move, b: u8, c: int, ks: int, rs: int)
    requires
        sound_position(p),
        spec_legal_moves(p).contains(m),
        (b == 1 && c == 0 && ks == 4 && rs == 7) || (b == 2 && c == 0 && ks == 4 && rs == 0) || (b
            == 4 && c == 1 && ks == 60 && rs == 63) || (b == 8 && c == 1 && ks == 60 && rs == 56),
    ensures
        spec_make_move(p, m).castling & b != 0 ==> piece_on(spec_make_move(p, m), KING as int, c, ks)
            && piece_on(spec_make_move(p, m), ROOK as int, c, rs),
{
    let q = spec_make_move(p, m);
    let usc = p.side_to_move;
    let themc = opposite(usc);
    let us = color_idx(usc);
    let them = 1 - us;
    let from = m.from as int;
    let to = m.to as int;
    lemma_castling_after_bits(p, m);
    if q.castling & b != 0 {
        lemma_play_facts(p, m);
        let v = ep_victim(p, m);
        let (rf, rt) = castle_rook(p, m);
        assert(p.castling & b != 0);
        assert(piece_on(p, KING as int, c, ks) && piece_on(p, ROOK as int, c, rs));
        lemma_only_type(p, ks, KING as int);
        lemma_only_type(p, rs, ROOK as int);
        if c == us {
            assert(from != ks);
            assert(to != ks);
        } else {
            let kt = choose|k: int| king_alone(p, themc, k);
            assert(sq_in(p.pieces[KING as int] & p.colors[them], ks));
            assert(ks == kt);
            assert(!(sq_in(p.colors[0], from) && sq_in(p.colors[1], from)));
            assert(from != ks && from != rs);
        }
        assert(v >= 0 ==> v != rs && v != ks);
        lemma_square_untouched(p, m, ks);
        lemma_square_untouched(p, m, rs);
    }
}

/// After a legal move in a sound position the en passant square, if any, is
/// empty with the pawn that stepped over it just past it.
proof fn lemma_en_passant_kept(p: Position, m: Move)
    requires
        sound_position(p),
        spec_legal_moves(p).contains(m),
    ensures
        ({
            let q = spec_make_move(p, m);
            q.en_passant matches Some(e) ==> {
                let v = if q.side_to_move == Color::White {
                    e - 8
                } else {
                    e + 8
                };
                &&& e < 64
                &&& 0 <= v < 64
                &&& !any_type(q, e as int)
                &&& piece_on(q, PAWN as int, 1 - color_idx(q.side_to_move), v)
            }
        }),
{
    let q = spec_make_move(p, m);
    let usc = p.side_to_move;
    let us = color_idx(usc);
    let them = 1 - us;
    let from = m.from as int;
    let to = m.to as int;
    if let Some(e) = q.en_passant {
        lemma_play_facts(p, m);
        lemma_pieces_after(p, m);
        lemma_colors_after(p, m);
        let v = ep_victim(p, m);
        let pt = moved_type(p, m) as int;
        assert(pt == PAWN && abs_diff(to, from) == 16);
        let mid = (from + to) / 2;
        assert(e == mid);
        assert(!sq_in(occupancy(p), mid));
        assert(v < 0) by {
            if v >= 0 {
                assert(sq_in(p.colors[them], v));
            }
        }
        assert(!any_type(p, mid));
        lemma_square_untouched(p, m, mid);
        assert(!any_type(q, mid));
        assert(sq_in(q.pieces[PAWN as int], to));
        assert(sq_in(q.colors[us], to));
        assert(1 - color_idx(q.side_to_move) == us);
    }
}

/// Playing a legal move in a sound position gives a sound position.
pub proof fn law_legal_move_keeps_soundness(p: Position, m: Move)
    requires
        sound_position(p),
        spec_legal_moves(p).contains(m),
    ensures
        sound_position(spec_make_move(p, m)),
{
    let q = spec_make_move(p, m);
    lemma_play_facts(p, m);
    lemma_kings_kept(p, m);
    lemma_right_kept(p, m, 1, 0, 4, 7);
    lemma_right_kept(p, m, 2, 0, 4, 0);
    lemma_right_kept(p, m, 4, 1, 60, 63);
    lemma_right_kept(p, m, 8, 1, 60, 56);
    lemma_en_passant_kept(p, m);
    assert(opposite(q.side_to_move) == p.side_to_move);
}

/// Two boards with no square in common share no square.
proof fn lemma_disjoint_at(a: u64, b: u64, s: int)
    requires
        a & b == 0,
    ensures
        !(sq_in(a, s) && sq_in(b, s)),
{
    assert(sq_in(a & b, s) == (sq_in(a, s) && sq_in(b, s)));
}

/// The starting position is sound.
pub proof fn law_start_is_sound()
    ensures
        sound_position(start_position()),
{
    let p = start_position();
    assert(0x00FF_0000_0000_FF00u64 & 0x4200_0000_0000_0042u64 == 0u64 && 0x00FF_0000_0000_FF00u64 & 0x2400_0000_0000_0024u64 == 0u64 && 0x00FF_0000_0000_FF00u64 & 0x8100_0000_0000_0081u64 == 0u64 && 0x00FF_0000_0000_FF00u64 & 0x0800_0000_0000_0008u64 == 0u64 && 0x00FF_0000_0000_FF00u64 & 0x1000_0000_0000_0010u64 == 0u64 && 0x4200_0000_0000_0042u64 & 0x2400_0000_0000_0024u64 == 0u64 && 0x4200_0000_0000_0042u64 & 0x8100_0000_0000_0081u64 == 0u64 && 0x4200_0000_0000_0042u64 & 0x0800_0000_0000_0008u64 == 0u64 && 0x4200_0000_0000_0042u64 & 0x1000_0000_0000_0010u64 == 0u64 && 0x2400_0000_0000_0024u64 & 0x8100_0000_0000_0081u64 == 0u64 && 0x2400_0000_0000_0024u64 & 0x0800_0000_0000_0008u64 == 0u64 && 0x2400_0000_0000_0024u64 & 0x1000_0000_0000_0010u64 == 0u64 && 0x8100_0000_0000_0081u64 & 0x0800_0000_0000_0008u64 == 0u64 && 0x8100_0000_0000_0081u64 & 0x1000_0000_0000_0010u64 == 0u64 && 0x0800_0000_0000_0008u64 & 0x1000_0000_0000_0010u64 == 0u64) by (bit_vector);
    assert(0x0000_0000_0000_FFFFu64 & 0xFFFF_0000_0000_0000u64 == 0u64 && 0x0000_0000_0000_FFFFu64 | 0xFFFF_0000_0000_0000u64 == 0x00FF_0000_0000_FF00u64 | 0x4200_0000_0000_0042u64 | 0x2400_0000_0000_0024u64 | 0x8100_0000_0000_0081u64 | 0x0800_0000_0000_0008u64 | 0x1000_0000_0000_0010u64)
        by (bit_vector);
    assert forall|s: int, i: int, j: int|
        0 <= i < j < 6 implies !(#[trigger] sq_in(p.pieces[i], s) && #[trigger] sq_in(p.pieces[j], s)) by {
        if i == 0 && j == 1 {
            lemma_disjoint_at(p.pieces[0], p.pieces[1], s);
        } else if i == 0 && j == 2 {
            lemma_disjoint_at(p.pieces[0], p.pieces[2], s);
        } else if i == 0 && j == 3 {
            lemma_disjoint_at(p.pieces[0], p.pieces[3], s);
        } else if i == 0 && j == 4 {
            lemma_disjoint_at(p.pieces[0], p.pieces[4], s);
        } else if i == 0 && j == 5 {
            lemma_disjoint_at(p.pieces[0], p.pieces[5], s);
        } else if i == 1 && j == 2 {
            lemma_disjoint_at(p.pieces[1], p.pieces[2], s);
        } else if i == 1 && j == 3 {
            lemma_disjoint_at(p.pieces[1], p.pieces[3], s);
        } else if i == 1 && j == 4 {
            lemma_disjoint_at(p.pieces[1], p.pieces[4], s);
        } else if i == 1 && j == 5 {
            lemma_disjoint_at(p.pieces[1], p.pieces[5], s);
        } else if i == 2 && j == 3 {
            lemma_disjoint_at(p.pieces[2], p.pieces[3], s);
        } else if i == 2 && j == 4 {
            lemma_disjoint_at(p.pieces[2], p.pieces[4], s);
        } else if i == 2 && j == 5 {
            lemma_disjoint_at(p.pieces[2], p.pieces[5], s);
        } else if i == 3 && j == 4 {
            lemma_disjoint_at(p.pieces[3], p.pieces[4], s);
        } else if i == 3 && j == 5 {
            lemma_disjoint_at(p.pieces[3], p.pieces[5], s);
        } else if i == 4 && j == 5 {
            lemma_disjoint_at(p.pieces[4], p.pieces[5], s);
        }
    }
    assert forall|s: int| !(#[trigger] sq_in(p.colors[0], s) && sq_in(p.colors[1], s)) by {
        lemma_disjoint_at(p.colors[0], p.colors[1], s);
    }
    assert forall|s: int| (sq_in(p.colors[0], s) || sq_in(p.colors[1], s)) == #[trigger] any_type(p, s) by {
        assert(sq_in(p.colors[0] | p.colors[1], s) == (sq_in(p.colors[0], s) || sq_in(p.colors[1], s)));
        let all = p.pieces[0] | p.pieces[1] | p.pieces[2] | p.pieces[3] | p.pieces[4] | p.pieces[5];
        assert(p.colors[0] | p.colors[1] == all);
        assert(sq_in(all, s) == any_type(p, s));
    }
    assert(consistent(p));
    // the kings and rooks on their starting squares, the rights all held
    assert(
        0x1000_0000_0000_0010u64 & (1u64 << 4u64) != 0 && 0x0000_0000_0000_FFFFu64 & (1u64 << 4u64) != 0 && 0x8100_0000_0000_0081u64 & (1u64 << 7u64) != 0
        && 0x0000_0000_0000_FFFFu64 & (1u64 << 7u64) != 0 && 0x8100_0000_0000_0081u64 & (1u64 << 0u64) != 0 && 0x0000_0000_0000_FFFFu64 & (1u64 << 0u64) != 0
        && 0x1000_0000_0000_0010u64 & (1u64 << 60u64) != 0 && 0xFFFF_0000_0000_0000u64 & (1u64 << 60u64) != 0 && 0x8100_0000_0000_0081u64 & (1u64 << 63u64)
        != 0 && 0xFFFF_0000_0000_0000u64 & (1u64 << 63u64) != 0 && 0x8100_0000_0000_0081u64 & (1u64 << 56u64) != 0 && 0xFFFF_0000_0000_0000u64 & (1u64 << 56u64)
        != 0 && 15u8 & 1u8 != 0 && 15u8 & 2u8 != 0 && 15u8 & 4u8 != 0 && 15u8 & 8u8 != 0
    ) by (bit_vector);
    assert(rights_fit(p));
    // one king each
    assert(0x1000_0000_0000_0010u64 & 0x0000_0000_0000_FFFFu64 == 1u64 << 4u64 && 0x1000_0000_0000_0010u64 & 0xFFFF_0000_0000_0000u64 == 1u64 << 60u64) by (bit_vector);
    assert(king_alone(p, Color::White, 4));
    assert(king_alone(p, Color::Black, 60));
    lemma_king_alone(p, Color::White, 4);
    lemma_king_alone(p, Color::Black, 60);
    // nothing of White's reaches the black king
    assert(0x00FF_0000_0000_FF00u64 & 0x0000_0000_0000_FFFFu64 == 0xFF00u64 && 0x4200_0000_0000_0042u64 & 0x0000_0000_0000_FFFFu64 == 0x42u64 && 0x2400_0000_0000_0024u64 & 0x0000_0000_0000_FFFFu64 == 0x24u64 && 0x8100_0000_0000_0081u64
        & 0x0000_0000_0000_FFFFu64 == 0x81u64 && 0x0800_0000_0000_0008u64 & 0x0000_0000_0000_FFFFu64 == 0x08u64) by (bit_vector);
    assert forall|s: int| !#[trigger] attacks_from(p, Color::White, s, 60) by {
        if 0 <= s < 64 {
            let t = s as u64;
            assert(((0xFF00u64 & (1u64 << t)) != 0 ==> 8 <= t && t < 16) && ((0x42u64 & (1u64 << t))
                != 0 ==> t < 8 && t != 4) && ((0x24u64 & (1u64 << t)) != 0 ==> t < 8 && t != 4) && ((
            0x81u64 & (1u64 << t)) != 0 ==> t < 8 && t != 4) && ((0x08u64 & (1u64 << t)) != 0 ==> t
                < 8 && t != 4)) by (bit_vector)
                requires
                    t < 64,
            ;
        }
    }
    assert(!king_step(4, 60));
    assert(!spec_attacked(p, Color::White, 60));
}

/// The position after `moves` are played in turn from `p`.
pub open spec fn play(p: Position, moves: Seq<Move>) -> Position
    decreases moves.len(),
{
    if moves.len() == 0 {
        p
    } else {
        spec_make_move(play(p, moves.drop_last()), moves.last())
    }
}

/// Every move of `moves` is legal in the position where it is played.
pub open spec fn legal_play(p: Position, moves: Seq<Move>) -> bool {
    forall|i: int| 0 <= i < moves.len() ==> #[trigger] spec_legal_moves(play(p, moves.take(i))).contains(moves[i])
}

/// Every position reached from the start by legal moves is sound.
pub proof fn law_played_positions_sound(moves: Seq<Move>)
    requires
        legal_play(start_position(), moves),
    ensures
        sound_position(play(start_position(), moves)),
    decreases moves.len(),
{
    let p0 = start_position();
    if moves.len() == 0 {
        law_start_is_sound();
    } else {
        let n = moves.len() - 1;
        let rest = moves.drop_last();
        assert forall|i: int| 0 <= i < rest.len() implies #[trigger] spec_legal_moves(
            play(p0, rest.take(i)),
        ).contains(rest[i]) by {
            assert(rest.take(i) =~= moves.take(i));
            assert(spec_legal_moves(play(p0, moves.take(i))).contains(moves[i]));
        }
        law_played_positions_sound(rest);
        assert(moves.take(n) =~= rest);
        assert(spec_legal_moves(play(p0, moves.take(n))).contains(moves[n]));
        law_legal_move_keeps_soundness(play(p0, rest), moves.last());
    }
}

/// In any position reached from the start by legal moves, a legal move keeps
/// the boards consistent, leaves the mover as many pieces as it had, and takes
/// one piece from the other side exactly when it captures.
pub proof fn law_played_move_effects(moves: Seq<Move>, m: Move)
    requires
        legal_play(start_position(), moves),
        spec_legal_moves(play(start_position(), moves)).contains(m),
    ensures
        ({
            let p = play(start_position(), moves);
            let q = spec_make_move(p, m);
            let us = color_idx(p.side_to_move);
            &&& consistent(q)
            &&& sound_position(q)
            &&& squares(q.colors[us]).len() == squares(p.colors[us]).len()
            &&& squares(q.colors[1 - us]).len() + (if captures(p, m) {
                1int
            } else {
                0int
            }) == squares(p.colors[1 - us]).len()
        }),
{
    let p = play(start_position(), moves);
    law_played_positions_sound(moves);
    law_legal_move_keeps_soundness(p, m);
    law_legal_move_piece_counts(p, m);
}

/// The lowest piece type on a square is at most any type standing there.
proof fn lemma_type_at_most(p: Position, s: int, k: int, t: int)
    requires
        0 <= k <= t < 6,
        sq_in(p.pieces[t], s),
    ensures
        piece_type_from(p, s, k) matches Some(x) && k <= x <= t,
    decreases t - k,
{
    if k < t && !sq_in(p.pieces[k], s) {
        lemma_type_at_most(p, s, k + 1, t);
    }
}

/// A legal king move of two files is a castle: from the king's home square,
/// with the matching right held, the squares between king and rook empty,
/// and none of the squares the king stands on, crosses or reaches attacked by
/// the opponent.
pub proof fn law_castling_needs_safe_path(p: Position, m: Move)
    requires
        spec_legal_moves(p).contains(m),
        moved_type(p, m) == KING,
        abs_diff(m.to as int, m.from as int) == 2,
    ensures
        p.side_to_move == Color::White ==> m.from == 4 && ((m.to == 6 && p.castling & 1 != 0
            && empty_sq(p, 5) && empty_sq(p, 6) && !spec_attacked(p, Color::Black, 4)
            && !spec_attacked(p, Color::Black, 5) && !spec_attacked(p, Color::Black, 6)) || (m.to
            == 2 && p.castling & 2 != 0 && empty_sq(p, 1) && empty_sq(p, 2) && empty_sq(p, 3)
            && !spec_attacked(p, Color::Black, 4) && !spec_attacked(p, Color::Black, 3)
            && !spec_attacked(p, Color::Black, 2))),
        p.side_to_move == Color::Black ==> m.from == 60 && ((m.to == 62 && p.castling & 4 != 0
            && empty_sq(p, 61) && empty_sq(p, 62) && !spec_attacked(p, Color::White, 60)
            && !spec_attacked(p, Color::White, 61) && !spec_attacked(p, Color::White, 62)) || (m.to
            == 58 && p.castling & 8 != 0 && empty_sq(p, 57) && empty_sq(p, 58) && empty_sq(p, 59)
            && !spec_attacked(p, Color::White, 60) && !spec_attacked(p, Color::White, 59)
            && !spec_attacked(p, Color::White, 58))),
{
    law_legal_moves(p, m);
    let from = m.from as int;
    let to = m.to as int;
    let pw = pawn_moves(p, 64);
    let kn = piece_moves(p, KNIGHT, 64);
    let bi = piece_moves(p, BISHOP, 64);
    let ro = piece_moves(p, ROOK, 64);
    let qu = piece_moves(p, QUEEN, 64);
    let ki = piece_moves(p, KING, 64);
    let ca = castling_moves(p);
    assert(pseudo_legal(p) == pw + kn + bi + ro + qu + ki + ca);
    lemma_in_concat(pw + kn + bi + ro + qu + ki, ca, m);
    if ca.contains(m) {
        let i = choose|i: int| 0 <= i < ca.len() && ca[i] == m;
    } else {
        lemma_in_concat(pw + kn + bi + ro + qu, ki, m);
        if ki.contains(m) {
            lemma_in_piece_moves(p, KING, 64, m);
            assert(king_step(from, to));
            assert(false);
        } else {
            lemma_in_concat(pw + kn + bi + ro, qu, m);
            if !qu.contains(m) {
                lemma_in_concat(pw + kn + bi, ro, m);
                if !ro.contains(m) {
                    lemma_in_concat(pw + kn, bi, m);
                    if !bi.contains(m) {
                        lemma_in_concat(pw, kn, m);
                    }
                }
            }
            let pt = if qu.contains(m) {
                QUEEN
            } else if ro.contains(m) {
                ROOK
            } else if bi.contains(m) {
                BISHOP
            } else if kn.contains(m) {
                KNIGHT
            } else {
                PAWN
            };
            if pt != PAWN {
                lemma_in_piece_moves(p, pt, 64, m);
            } else {
                lemma_in_pawn_moves(p, 64, m);
            }
            lemma_type_at_most(p, from, 0, pt as int);
            assert(false);
        }
    }
}

/// Whether `m` takes a piece: one stands on its target square, or it takes a
/// pawn en passant.
pub open spec fn captures(p: Position, m: Move) -> bool {
    sq_in(p.colors[1 - color_idx(p.side_to_move)], m.to as int) || ep_victim(p, m) >= 0
}

/// The colour boards after a move, square by square: the mover leaves its
/// origin (and the castling rook its corner) for the target (and the rook's
/// square); the other side loses the target square and the pawn taken en passant.
proof fn lemma_colors_after(p: Position, m: Move)
    requires
        move_in_range(m),
    ensures
        ({
            let q = spec_make_move(p, m);
            let us = color_idx(p.side_to_move);
            let v = ep_victim(p, m);
            let (rf, rt) = castle_rook(p, m);
            &&& forall|s: int| #[trigger] sq_in(q.colors[us], s) == {
                let b1 = (sq_in(p.colors[us], s) && s != m.from) || s == m.to;
                if rf >= 0 {
                    (b1 && s != rf) || s == rt
                } else {
                    b1
                }
            }
            &&& forall|s: int| #[trigger] sq_in(q.colors[1 - us], s) == (sq_in(
                p.colors[1 - us],
                s,
            ) && s != m.to && !(v >= 0 && s == v))
        }),
{
    let q = spec_make_move(p, m);
    let us = color_idx(p.side_to_move);
    let them = 1 - us;
    let from = m.from as int;
    let to = m.to as int;
    let v = ep_victim(p, m);
    let (rf, rt) = castle_rook(p, m);
    assert forall|s: int| #[trigger] sq_in(q.colors[us], s) == {
        let b1 = (sq_in(p.colors[us], s) && s != from) || s == to;
        if rf >= 0 {
            (b1 && s != rf) || s == rt
        } else {
            b1
        }
    } by {
        assert(q.colors[us] == colors_after(p, m, us));
        assert(sq_in(bit_of(to), s) == (s == to));
        assert(sq_in(bit_of(from), s) == (s == from));
        if rf >= 0 {
            assert(sq_in(bit_of(rf), s) == (s == rf));
            assert(sq_in(bit_of(rt), s) == (s == rt));
        }
    }
    assert forall|s: int| #[trigger] sq_in(q.colors[them], s) == (sq_in(p.colors[them], s) && s
        != to && !(v >= 0 && s == v)) by {
        assert(q.colors[them] == colors_after(p, m, them));
        assert(sq_in(bit_of(to), s) == (s == to));
        if v >= 0 {
            assert(sq_in(bit_of(v), s) == (s == v));
        }
    }
}

/// Playing a move that fits consistent boards moves the mover's piece from its
/// origin to the target (and, castling, the rook from its corner to its square),
/// so the mover keeps as many pieces as before; the other side loses the piece
/// on the target square or the pawn taken en passant, so one piece exactly when
/// the move captures, and keeps all the others.
pub proof fn law_fitting_move_piece_counts(p: Position, m: Move)
    requires
        consistent(p),
        move_fits(p, m),
    ensures
        ({
            let q = spec_make_move(p, m);
            let us = color_idx(p.side_to_move);
            let them = 1 - us;
            let from = m.from as int;
            let to = m.to as int;
            let (rf, rt) = castle_rook(p, m);
            &&& squares(q.colors[us]) == if rf >= 0 {
                squares(p.colors[us]).remove(from).remove(rf).insert(to).insert(rt)
            } else {
                squares(p.colors[us]).remove(from).insert(to)
            }
            &&& squares(q.colors[them]) == squares(p.colors[them]).remove(to).remove(
                ep_victim(p, m),
            )
            &&& squares(q.colors[us]).len() == squares(p.colors[us]).len()
            &&& squares(q.colors[them]).len() + (if captures(p, m) {
                1int
            } else {
                0int
            }) == squares(p.colors[them]).len()
        }),
{
    let q = spec_make_move(p, m);
    let us = color_idx(p.side_to_move);
    let them = 1 - us;
    let from = m.from as int;
    let to = m.to as int;
    let v = ep_victim(p, m);
    let (rf, rt) = castle_rook(p, m);
    lemma_colors_after(p, m);
    lemma_squares_finite(p.colors[us]);
    lemma_squares_finite(p.colors[them]);
    let mine = squares(p.colors[us]);
    let theirs = squares(p.colors[them]);
    // the mover: out of the origin (and the rook's corner), into the target
    // (and the rook's square), none of which it held before
    if rf >= 0 {
        assert(!any_type(p, rt));
        assert(!sq_in(p.colors[us], rt));
        let after = mine.remove(from).remove(rf).insert(to).insert(rt);
        assert(squares(q.colors[us]) =~= after);
        assert(mine.remove(from).len() == mine.len() - 1);
        assert(mine.remove(from).remove(rf).len() == mine.len() - 2);
        assert(mine.remove(from).remove(rf).insert(to).len() == mine.len() - 1);
    } else {
        assert(squares(q.colors[us]) =~= mine.remove(from).insert(to));
        assert(mine.remove(from).len() == mine.len() - 1);
    }
    // the other side: the target square, or the pawn taken en passant
    assert(squares(q.colors[them]) =~= theirs.remove(to).remove(v));
    if v >= 0 {
        assert(!any_type(p, to));
        assert(!sq_in(p.colors[them], to));
        assert(theirs.remove(to) =~= theirs);
    } else {
        assert(!theirs.contains(v));
        assert(theirs.remove(to).remove(v) =~= theirs.remove(to));
        if !sq_in(p.colors[them], to) {
            assert(theirs.remove(to) =~= theirs);
        }
    }
}

/// In a position whose boards, castling rights and en passant square agree,
/// a legal move leaves the mover as many pieces as it had, and takes one piece
/// from the other side exactly when it captures.
pub proof fn law_legal_move_piece_counts(p: Position, m: Move)
    requires
        consistent(p),
        rights_fit(p),
        spec_legal_moves(p).contains(m),
    ensures
        ({
            let q = spec_make_move(p, m);
            let us = color_idx(p.side_to_move);
            &&& squares(q.colors[us]).len() == squares(p.colors[us]).len()
            &&& squares(q.colors[1 - us]).len() + (if captures(p, m) {
                1int
            } else {
                0int
            }) == squares(p.colors[1 - us]).len()
        }),
{
    law_legal_move_keeps_consistency(p, m);
    law_fitting_move_piece_counts(p, m);
}

// ── Laws ───────────────────────────────────────────────────────────

/// Writing a move as UCI text and reading the text back gives the move again,
/// for every move between squares of the board that promotes, if at all, to a
/// queen, rook, bishop or knight.
pub proof fn law_uci_roundtrip(m: Move)
    requires
        m.from < 64,
        m.to < 64,
        m.promotion is None || m.promotion == Some(QUEEN) || m.promotion == Some(ROOK)
            || m.promotion == Some(BISHOP) || m.promotion == Some(KNIGHT),
    ensures
        spec_from_uci(vstd::utf8::encode_utf8(spec_to_uci(m))) == Some(m),
{
    let s = spec_to_uci(m);
    assert(vstd::utf8::is_ascii_chars(s));
    vstd::utf8::is_ascii_chars_encode_utf8(s);
    let b = vstd::utf8::encode_utf8(s);
    assert(b[0] == (m.from % 8) + 97);
    assert(b[1] == (m.from / 8) + 49);
    assert(b[2] == (m.to % 8) + 97);
    assert(b[3] == (m.to / 8) + 49);
    if m.promotion is Some {
        assert(b.len() == 5);
    } else {
        assert(b.len() == 4);
    }
}

/// Splitting a square into file and rank and joining them gives the square.
pub proof fn law_square_roundtrip(sq: u8)
    requires
        sq < 64,
    ensures
        (sq / 8) * 8 + sq % 8 == sq,
        sq % 8 < 8 && sq / 8 < 8,
{
}

/// Every legal move is a pseudo-legal move that leaves the mover's king out of
/// check, and every such move is legal.
pub proof fn law_legal_moves(p: Position, m: Move)
    ensures
        spec_legal_moves(p).contains(m) <==> (pseudo_legal(p).contains(m) && !spec_in_check(
            spec_make_move(p, m),
            p.side_to_move,
        )),
{
    broadcast use vstd::seq_lib::group_filter_ensures;

    let pred = king_safe_pred(p);
    if spec_legal_moves(p).contains(m) {
        pseudo_legal(p).lemma_filter_contains_rev(pred, m);
        let i = choose|i: int| 0 <= i < spec_legal_moves(p).len() && spec_legal_moves(p)[i] == m;
        assert(pred(spec_legal_moves(p)[i]));
    }
    if pseudo_legal(p).contains(m) && keeps_king_safe(p, m) {
        let i = choose|i: int| 0 <= i < pseudo_legal(p).len() && pseudo_legal(p)[i] == m;
        pseudo_legal(p).lemma_filter_contains(pred, i);
    }
}

/// A position is never both checkmate and stalemate; with no legal move it is
/// exactly one of them.
pub proof fn law_mate_or_stalemate(p: Position)
    ensures
        !((spec_in_check(p, p.side_to_move) && spec_legal_moves(p).len() == 0) && (!spec_in_check(
            p,
            p.side_to_move,
        ) && spec_legal_moves(p).len() == 0)),
        spec_legal_moves(p).len() == 0 ==> ((spec_in_check(p, p.side_to_move) && spec_legal_moves(
            p,
        ).len() == 0) || (!spec_in_check(p, p.side_to_move) && spec_legal_moves(p).len() == 0)),
{
}

/// A move, legal or not, passes the turn to the other side.
pub proof fn law_move_passes_turn(p: Position, m: Move)
    ensures
        spec_make_move(p, m).side_to_move == opposite(p.side_to_move),
        opposite(opposite(p.side_to_move)) == p.side_to_move,
{
}

/// A pawn on the rank before the last, with the square ahead empty, pushes
/// onto the last rank as exactly its four promotions (queen, rook, bishop,
/// knight).
pub proof fn law_last_rank_push_promotes(p: Position, s: int)
    requires
        0 <= s < 64,
        rank_of(s) == (if p.side_to_move == Color::White {
            6int
        } else {
            1int
        }),
        !sq_in(occupancy(p), if p.side_to_move == Color::White {
            s + 8
        } else {
            s - 8
        }),
    ensures
        pawn_pushes(p, s) == promotions(
            s,
            if p.side_to_move == Color::White {
                s + 8
            } else {
                s - 8
            },
        ),
        promotions(s, s + 8).len() == 4,
{
    let to = if p.side_to_move == Color::White {
        s + 8
    } else {
        s - 8
    };
    assert(pawn_pushes(p, s) =~= promotions(s, to) + seq![]);
    assert(promotions(s, to) + seq![] =~= promotions(s, to));
}

/// Castling rights are only ever given up by a move, never gained.
proof fn lemma_castling_only_drops(p: Position, m: Move)
    ensures
        castling_after(p, m) & !p.castling == 0,
{
    let c0 = p.castling;
    assert(forall|c: u8, x: u8| #![trigger c & !x & !c0] (c & !c0 == 0) ==> ((c & !x) & !c0 == 0))
        by (bit_vector);
    assert(c0 & !c0 == 0) by (bit_vector);
}

/// A legal move passes the turn, never gives castling rights back, sets the
/// en passant square exactly after a pawn's double step (to the square passed
/// over), and does not leave the mover in check.
pub proof fn law_legal_move_effects(p: Position, m: Move)
    requires
        spec_legal_moves(p).contains(m),
    ensures
        ({
            let q = spec_make_move(p, m);
            &&& q.side_to_move == opposite(p.side_to_move)
            &&& q.castling & !p.castling == 0
            &&& q.en_passant == (if moved_type(p, m) == PAWN && abs_diff(m.to as int, m.from as int)
                == 16 {
                Some(((m.from + m.to) / 2) as u8)
            } else {
                None
            })
            &&& !spec_in_check(q, p.side_to_move)
        }),
{
    lemma_castling_only_drops(p, m);
    law_legal_moves(p, m);
}

/// A move read from UCI text is between squares of the board and promotes, if
/// at all, to a piece type.
pub proof fn lemma_uci_in_range(b: Seq<u8>)
    ensures
        spec_from_uci(b) matches Some(m) ==> move_in_range(m),
{
}

} // verus!
