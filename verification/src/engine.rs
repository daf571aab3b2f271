//! Built-in chess engine with adjustable strength and personalities.
//! Uses minimax with alpha-beta pruning and piece-square tables.
use vstd::prelude::*;
use std::collections::hash_map::DefaultHasher;
use vstd::std_specs::hash::DefaultHasherAdditionalSpecFns;

use crate::bits::{group_bits, sq_in, square_bit};
use crate::board::{
    lemma_legal_moves_len, spec_in_check, spec_legal_moves, spec_make_move, Color, Move,
    Position, BISHOP, BLACK, KING, KNIGHT, PAWN, QUEEN, ROOK, WHITE,
};

verus! {

broadcast use group_bits;

// ── Piece Values ───────────────────────────────────────────────────

pub const PAWN_VAL: i32 = 100;
pub const KNIGHT_VAL: i32 = 320;
pub const BISHOP_VAL: i32 = 330;
pub const ROOK_VAL: i32 = 500;
pub const QUEEN_VAL: i32 = 900;
pub const KING_VAL: i32 = 20000;

pub open spec fn spec_piece_value(pt: int) -> int {
    if pt == PAWN {
        100
    } else if pt == KNIGHT {
        320
    } else if pt == BISHOP {
        330
    } else if pt == ROOK {
        500
    } else if pt == QUEEN {
        900
    } else if pt == KING {
        20000
    } else {
        0
    }
}

fn piece_value(pt: usize) -> (v: i32)
    ensures
        v == spec_piece_value(pt as int),
{
    match pt {
        PAWN => PAWN_VAL,
        KNIGHT => KNIGHT_VAL,
        BISHOP => BISHOP_VAL,
        ROOK => ROOK_VAL,
        QUEEN => QUEEN_VAL,
        KING => KING_VAL,
        _ => 0,
    }
}


// ── Piece-Square Tables (from White's perspective) ─────────────────
// Bonus for having a piece on a given square.

pub const PAWN_TABLE: [i32; 64] = [
     0,  0,  0,  0,  0,  0,  0,  0,
     5, 10, 10,-20,-20, 10, 10,  5,
     5, -5,-10,  0,  0,-10, -5,  5,
     0,  0,  0, 20, 20,  0,  0,  0,
     5,  5, 10, 25, 25, 10,  5,  5,
    10, 10, 20, 30, 30, 20, 10, 10,
    50, 50, 50, 50, 50, 50, 50, 50,
     0,  0,  0,  0,  0,  0,  0,  0,
];

pub const KNIGHT_TABLE: [i32; 64] = [
    -50,-40,-30,-30,-30,-30,-40,-50,
    -40,-20,  0,  5,  5,  0,-20,-40,
    -30,  5, 10, 15, 15, 10,  5,-30,
    -30,  0, 15, 20, 20, 15,  0,-30,
    -30,  5, 15, 20, 20, 15,  5,-30,
    -30,  0, 10, 15, 15, 10,  0,-30,
    -40,-20,  0,  0,  0,  0,-20,-40,
    -50,-40,-30,-30,-30,-30,-40,-50,
];

pub const BISHOP_TABLE: [i32; 64] = [
    -20,-10,-10,-10,-10,-10,-10,-20,
    -10,  5,  0,  0,  0,  0,  5,-10,
    -10, 10, 10, 10, 10, 10, 10,-10,
    -10,  0, 10, 10, 10, 10,  0,-10,
    -10,  5,  5, 10, 10,  5,  5,-10,
    -10,  0,  5, 10, 10,  5,  0,-10,
    -10,  0,  0,  0,  0,  0,  0,-10,
    -20,-10,-10,-10,-10,-10,-10,-20,
];

pub const ROOK_TABLE: [i32; 64] = [
     0,  0,  0,  5,  5,  0,  0,  0,
    -5,  0,  0,  0,  0,  0,  0, -5,
    -5,  0,  0,  0,  0,  0,  0, -5,
    -5,  0,  0,  0,  0,  0,  0, -5,
    -5,  0,  0,  0,  0,  0,  0, -5,
    -5,  0,  0,  0,  0,  0,  0, -5,
     5, 10, 10, 10, 10, 10, 10,  5,
     0,  0,  0,  0,  0,  0,  0,  0,
];

pub const QUEEN_TABLE: [i32; 64] = [
    -20,-10,-10, -5, -5,-10,-10,-20,
    -10,  0,  5,  0,  0,  0,  0,-10,
    -10,  5,  5,  5,  5,  5,  0,-10,
      0,  0,  5,  5,  5,  5,  0, -5,
     -5,  0,  5,  5,  5,  5,  0, -5,
    -10,  0,  5,  5,  5,  5,  0,-10,
    -10,  0,  0,  0,  0,  0,  0,-10,
    -20,-10,-10, -5, -5,-10,-10,-20,
];

pub const KING_TABLE_MID: [i32; 64] = [
     20, 30, 10,  0,  0, 10, 30, 20,
     20, 20,  0,  0,  0,  0, 20, 20,
    -10,-20,-20,-20,-20,-20,-20,-10,
    -20,-30,-30,-40,-40,-30,-30,-20,
    -30,-40,-40,-50,-50,-40,-40,-30,
    -30,-40,-40,-50,-50,-40,-40,-30,
    -30,-40,-40,-50,-50,-40,-40,-30,
    -30,-40,-40,-50,-50,-40,-40,-30,
];

/// The table square for a piece on `sq`: the square itself for White, mirrored
/// across the middle of the board for Black.
pub open spec fn pst_index(sq: int, white: bool) -> int {
    if white {
        sq
    } else {
        (7 - sq / 8) * 8 + sq % 8
    }
}

/// The piece-square bonus of a piece of type `pt` on `sq`.
pub open spec fn spec_pst(pt: int, sq: int, white: bool) -> int {
    let i = pst_index(sq, white);
    if pt == PAWN {
        PAWN_TABLE[i] as int
    } else if pt == KNIGHT {
        KNIGHT_TABLE[i] as int
    } else if pt == BISHOP {
        BISHOP_TABLE[i] as int
    } else if pt == ROOK {
        ROOK_TABLE[i] as int
    } else if pt == QUEEN {
        QUEEN_TABLE[i] as int
    } else if pt == KING {
        KING_TABLE_MID[i] as int
    } else {
        0
    }
}

proof fn lemma_pst_bound(pt: int, sq: int, white: bool)
    requires
        0 <= sq < 64,
    ensures
        -50 <= spec_pst(pt, sq, white) <= 50,
{
    let i = pst_index(sq, white);
    assert(0 <= i < 64);
    assert(forall|j: int| 0 <= j < 64 ==> -50 <= #[trigger] PAWN_TABLE[j] <= 50);
    assert(forall|j: int| 0 <= j < 64 ==> -50 <= #[trigger] KNIGHT_TABLE[j] <= 50);
    assert(forall|j: int| 0 <= j < 64 ==> -50 <= #[trigger] BISHOP_TABLE[j] <= 50);
    assert(forall|j: int| 0 <= j < 64 ==> -50 <= #[trigger] ROOK_TABLE[j] <= 50);
    assert(forall|j: int| 0 <= j < 64 ==> -50 <= #[trigger] QUEEN_TABLE[j] <= 50);
    assert(forall|j: int| 0 <= j < 64 ==> -50 <= #[trigger] KING_TABLE_MID[j] <= 50);
}

fn pst_value(pt: usize, sq: u8, is_white: bool) -> (v: i32)
    requires
        sq < 64,
    ensures
        v == spec_pst(pt as int, sq as int, is_white),
{
    // Mirror for black pieces
    let idx: usize = if is_white {
        sq as usize
    } else {
        ((7 - sq / 8) * 8 + sq % 8) as usize
    };
    match pt {
        PAWN => PAWN_TABLE[idx],
        KNIGHT => KNIGHT_TABLE[idx],
        BISHOP => BISHOP_TABLE[idx],
        ROOK => ROOK_TABLE[idx],
        QUEEN => QUEEN_TABLE[idx],
        KING => KING_TABLE_MID[idx],
        _ => 0,
    }
}


// ── Evaluation ─────────────────────────────────────────────────────

/// The material and placement balance of square `s` for pieces of type `pt`:
/// plus value and bonus of a White piece there, minus those of a Black one.
pub open spec fn sq_score(p: Position, pt: int, s: int) -> int {
    (if sq_in(p.pieces[pt] & p.colors[WHITE as int], s) {
        spec_piece_value(pt) + spec_pst(pt, s, true)
    } else {
        0
    }) - (if sq_in(p.pieces[pt] & p.colors[BLACK as int], s) {
        spec_piece_value(pt) + spec_pst(pt, s, false)
    } else {
        0
    })
}

/// The balance of pieces of type `pt` over the squares below `n`.
pub open spec fn type_score(p: Position, pt: int, n: int) -> int
    decreases n,
{
    if n <= 0 {
        0
    } else {
        type_score(p, pt, n - 1) + sq_score(p, pt, n - 1)
    }
}

/// The balance of the piece types below `k`, each over the whole board.
pub open spec fn material(p: Position, k: int) -> int
    decreases k,
{
    if k <= 0 {
        0
    } else {
        material(p, k - 1) + type_score(p, k - 1, 64)
    }
}

/// Division rounding toward zero, as Rust's integer `/` does.
pub open spec fn trunc_div(x: int, d: int) -> int {
    if x >= 0 {
        x / d
    } else {
        -((-x) / d)
    }
}

/// Mobility aggression the engine accepts: large enough for every personality,
/// small enough that no score can overflow.
pub open spec fn aggression_ok(a: i32) -> bool {
    -20000 <= a <= 20000
}

/// The static score: material and placement from White's view plus the mobility
/// term (legal move count times aggression, tenths), from the view of the side to move.
pub open spec fn spec_evaluate(p: Position, aggression: int) -> int {
    let score = material(p, 6) + trunc_div(spec_legal_moves(p).len() * aggression, 10);
    if p.side_to_move == Color::White {
        score
    } else {
        -score
    }
}

/// Every score is at most this far from zero.
pub open spec fn score_bound() -> int {
    0x4000_0000
}

proof fn lemma_type_score_bound(p: Position, pt: int, n: int)
    requires
        0 <= n <= 64,
    ensures
        -40100 * n <= type_score(p, pt, n) <= 40100 * n,
    decreases n,
{
    if n > 0 {
        lemma_type_score_bound(p, pt, n - 1);
        lemma_pst_bound(pt, n - 1, true);
        lemma_pst_bound(pt, n - 1, false);
    }
}

proof fn lemma_material_bound(p: Position, k: int)
    requires
        0 <= k <= 6,
    ensures
        -2566400 * k <= material(p, k) <= 2566400 * k,
    decreases k,
{
    if k > 0 {
        lemma_material_bound(p, k - 1);
        lemma_type_score_bound(p, k - 1, 64);
    }
}

proof fn lemma_evaluate_bound(p: Position, aggression: int)
    requires
        -20000 <= aggression <= 20000,
    ensures
        -score_bound() < spec_evaluate(p, aggression) < score_bound(),
{
    lemma_material_bound(p, 6);
    lemma_legal_moves_len(p);
    let n = spec_legal_moves(p).len();
    assert(-745_000_000 <= n * aggression <= 745_000_000) by (nonlinear_arith)
        requires
            0 <= n <= 37250,
            -20000 <= aggression <= 20000,
    ;
}

/// Material plus placement of pieces of type `pt`.
fn type_balance(pos: &Position, pt: usize) -> (score: i32)
    requires
        pt < 6,
    ensures
        score == type_score(*pos, pt as int, 64),
        -2566400 <= score <= 2566400,
{
    let white = pos.pieces[pt] & pos.colors[WHITE];
    let black = pos.pieces[pt] & pos.colors[BLACK];
    let mut score: i32 = 0;
    let mut sq: u8 = 0;
    while sq < 64
        invariant
            sq <= 64,
            pt < 6,
            white == pos.pieces[pt as int] & pos.colors[WHITE as int],
            black == pos.pieces[pt as int] & pos.colors[BLACK as int],
            score == type_score(*pos, pt as int, sq as int),
        decreases 64 - sq,
    {
        proof {
            lemma_type_score_bound(*pos, pt as int, sq as int);
            lemma_pst_bound(pt as int, sq as int, true);
            lemma_pst_bound(pt as int, sq as int, false);
        }
        let bit = square_bit(sq);
        let mut here: i32 = 0;
        if white & bit != 0 {
            here = here + piece_value(pt) + pst_value(pt, sq, true);
        }
        if black & bit != 0 {
            here = here - (piece_value(pt) + pst_value(pt, sq, false));
        }
        assert(here == sq_score(*pos, pt as int, sq as int));
        score = score + here;
        sq += 1;
    }
    proof {
        lemma_type_score_bound(*pos, pt as int, 64);
    }
    score
}

fn evaluate(pos: &Position, personality: &Personality) -> (score: i32)
    requires
        aggression_ok(personality.aggression),
    ensures
        score == spec_evaluate(*pos, personality.aggression as int),
        -score_bound() < score < score_bound(),
{
    let mut score: i32 = 0;
    let mut pt: usize = 0;
    while pt < 6
        invariant
            pt <= 6,
            score == material(*pos, pt as int),
        decreases 6 - pt,
    {
        proof {
            lemma_material_bound(*pos, pt as int);
            lemma_type_score_bound(*pos, pt as int, 64);
        }
        let t = type_balance(pos, pt);
        score = score + t;
        pt += 1;
    }
    // Mobility, weighted by the personality's aggression
    let moves = pos.legal_moves();
    proof {
        lemma_legal_moves_len(*pos);
        lemma_material_bound(*pos, 6);
        lemma_evaluate_bound(*pos, personality.aggression as int);
    }
    let mobility = moves.len() as i32;
    assert(-745_000_000 <= mobility * personality.aggression <= 745_000_000) by (nonlinear_arith)
        requires
            0 <= mobility <= 37250,
            -20000 <= personality.aggression <= 20000,
    ;
    let product = mobility * personality.aggression;
    let mobility_diff = product / 10;
    score = score + mobility_diff;
    // From the perspective of the side to move
    if pos.side_to_move == Color::White {
        score
    } else {
        -score
    }
}

// ── Personality ────────────────────────────────────────────────────

/// An engine opponent: how deep it searches, how much it values mobility, and
/// how often it picks a weaker move.
#[derive(Clone)]
pub struct Personality {
    pub name: &'static str,
    pub description: &'static str,
    /// search depth (1-7)
    pub depth: u8,
    /// 0-20, how much mobility matters
    pub aggression: i32,
    /// 0-100, chance of picking a suboptimal move
    pub randomness: u8,
}

/// The opponents on offer, from beginner to world champion.
pub open spec fn spec_personalities() -> Seq<Personality> {
    seq![
        Personality {
            name: "Beginner",
            description: "Just learning the rules. Makes random mistakes.",
            depth: 1,
            aggression: 5,
            randomness: 40,
        },
        Personality {
            name: "Casual",
            description: "Plays for fun. Occasionally blunders.",
            depth: 2,
            aggression: 8,
            randomness: 20,
        },
        Personality {
            name: "Club Player",
            description: "Solid fundamentals. Doesn't hang pieces.",
            depth: 3,
            aggression: 10,
            randomness: 5,
        },
        Personality {
            name: "Strong Player",
            description: "Plays well. Finds tactical shots.",
            depth: 4,
            aggression: 12,
            randomness: 2,
        },
        Personality {
            name: "Expert",
            description: "Tournament strength. Deep calculation.",
            depth: 5,
            aggression: 15,
            randomness: 0,
        },
        Personality {
            name: "Bobby Fischer",
            description: "Aggressive, precise, no mercy.",
            depth: 4,
            aggression: 18,
            randomness: 0,
        },
        Personality {
            name: "Mikhail Tal",
            description: "Wild sacrifices, chaotic attacks.",
            depth: 3,
            aggression: 20,
            randomness: 10,
        },
        Personality {
            name: "Anatoly Karpov",
            description: "Positional squeeze, quiet suffocation.",
            depth: 4,
            aggression: 5,
            randomness: 0,
        },
        Personality {
            name: "Garry Kasparov",
            description: "Dynamic, calculating, overwhelming force.",
            depth: 5,
            aggression: 16,
            randomness: 0,
        },
        Personality {
            name: "Magnus Carlsen",
            description: "Universal, patient, grinds you down.",
            depth: 5,
            aggression: 12,
            randomness: 0,
        },
    ]
}

/// The opponents on offer, from beginner to world champion.
pub fn personalities() -> (ps: Vec<Personality>)
    ensures
        ps@ == spec_personalities(),
{
    let mut ps: Vec<Personality> = Vec::new();
    ps.push(
        Personality {
            name: "Beginner",
            description: "Just learning the rules. Makes random mistakes.",
            depth: 1,
            aggression: 5,
            randomness: 40,
        },
    );
    ps.push(
        Personality {
            name: "Casual",
            description: "Plays for fun. Occasionally blunders.",
            depth: 2,
            aggression: 8,
            randomness: 20,
        },
    );
    ps.push(
        Personality {
            name: "Club Player",
            description: "Solid fundamentals. Doesn't hang pieces.",
            depth: 3,
            aggression: 10,
            randomness: 5,
        },
    );
    ps.push(
        Personality {
            name: "Strong Player",
            description: "Plays well. Finds tactical shots.",
            depth: 4,
            aggression: 12,
            randomness: 2,
        },
    );
    ps.push(
        Personality {
            name: "Expert",
            description: "Tournament strength. Deep calculation.",
            depth: 5,
            aggression: 15,
            randomness: 0,
        },
    );
    ps.push(
        Personality {
            name: "Bobby Fischer",
            description: "Aggressive, precise, no mercy.",
            depth: 4,
            aggression: 18,
            randomness: 0,
        },
    );
    ps.push(
        Personality {
            name: "Mikhail Tal",
            description: "Wild sacrifices, chaotic attacks.",
            depth: 3,
            aggression: 20,
            randomness: 10,
        },
    );
    ps.push(
        Personality {
            name: "Anatoly Karpov",
            description: "Positional squeeze, quiet suffocation.",
            depth: 4,
            aggression: 5,
            randomness: 0,
        },
    );
    ps.push(
        Personality {
            name: "Garry Kasparov",
            description: "Dynamic, calculating, overwhelming force.",
            depth: 5,
            aggression: 16,
            randomness: 0,
        },
    );
    ps.push(
        Personality {
            name: "Magnus Carlsen",
            description: "Universal, patient, grinds you down.",
            depth: 5,
            aggression: 12,
            randomness: 0,
        },
    );
    assert(ps@ =~= spec_personalities());
    ps
}


// ── Search ─────────────────────────────────────────────────────────

/// Negamax with alpha-beta pruning (fail-hard): the score of `p` for the side to
/// move searched `depth` plies deep within the window (`alpha`, `beta`). At depth 0
/// the static score; with no legal move a mate score (less bad the later the mate)
/// or 0 for stalemate; otherwise the scan of the legal moves in order.
pub open spec fn spec_alpha_beta(p: Position, depth: int, alpha: int, beta: int, agg: int) -> int
    decreases depth, spec_legal_moves(p).len() + 1,
{
    if depth <= 0 {
        spec_evaluate(p, agg)
    } else {
        let ms = spec_legal_moves(p);
        if ms.len() == 0 {
            if spec_in_check(p, p.side_to_move) {
                -20000 + (10 - depth)
            } else {
                0
            }
        } else {
            ab_scan(p, ms, 0, depth, alpha, beta, agg)
        }
    }
}

/// The scan over moves `ms` from index `i` on with the window's lower bound at
/// `alpha`: a move scoring at least `beta` cuts off with `beta`, a better move
/// raises `alpha`, and the last `alpha` is the result.
pub open spec fn ab_scan(
    p: Position,
    ms: Seq<Move>,
    i: int,
    depth: int,
    alpha: int,
    beta: int,
    agg: int,
) -> int
    decreases depth, ms.len() - i,
{
    if i >= ms.len() || i < 0 || depth <= 0 {
        alpha
    } else {
        let score = -spec_alpha_beta(spec_make_move(p, ms[i]), depth - 1, -beta, -alpha, agg);
        if score >= beta {
            beta
        } else {
            ab_scan(
                p,
                ms,
                i + 1,
                depth,
                if score > alpha {
                    score
                } else {
                    alpha
                },
                beta,
                agg,
            )
        }
    }
}

fn alpha_beta(pos: &Position, depth: u8, alpha: i32, beta: i32, personality: &Personality) -> (r: i32)
    requires
        aggression_ok(personality.aggression),
        -score_bound() < alpha < beta < score_bound(),
    ensures
        r == spec_alpha_beta(*pos, depth as int, alpha as int, beta as int, personality.aggression as int),
        -score_bound() < r < score_bound(),
    decreases depth,
{
    if depth == 0 {
        return evaluate(pos, personality);
    }
    let moves = pos.legal_moves();
    if moves.len() == 0 {
        if pos.in_check(pos.side_to_move) {
            return -KING_VAL + (10 - depth as i32);  // prefer faster mates
        }
        return 0;  // stalemate
    }
    let ghost ms = moves@;
    let mut a = alpha;
    let mut i: usize = 0;
    while i < moves.len()
        invariant
            i <= moves.len(),
            moves@ == ms,
            ms == spec_legal_moves(*pos),
            ms.len() > 0,
            depth > 0,
            crate::board::all_in_range(ms),
            aggression_ok(personality.aggression),
            alpha <= a < beta,
            -score_bound() < alpha < beta < score_bound(),
            spec_alpha_beta(*pos, depth as int, alpha as int, beta as int, personality.aggression as int)
                == ab_scan(*pos, ms, i as int, depth as int, a as int, beta as int, personality.aggression as int),
        decreases moves.len() - i,
    {
        let mv = moves[i];
        assert(crate::board::move_in_range(ms[i as int]));
        let new_pos = pos.make_move(mv);
        let child = alpha_beta(&new_pos, depth - 1, -beta, -a, personality);
        let score = -child;
        if score >= beta {
            return beta;
        }
        if score > a {
            a = score;
        }
        i += 1;
    }
    a
}

// ── Choosing a move ────────────────────────────────────────────────

/// The score of playing `m`: the negated search of the position after it, one ply
/// less deep than the personality's depth (never below zero), in the widest window.
pub open spec fn move_score(p: Position, m: Move, depth: u8, agg: int) -> i32 {
    (-spec_alpha_beta(
        spec_make_move(p, m),
        if depth > 0 {
            depth - 1
        } else {
            0
        },
        -20000,
        20000,
        agg,
    )) as i32
}

/// The legal moves paired with their scores, in generation order.
pub open spec fn scored_moves(p: Position, depth: u8, agg: int) -> Seq<(Move, i32)> {
    spec_legal_moves(p).map_values(|m: Move| (m, move_score(p, m, depth, agg)))
}

/// Inserts `x` into a list ordered best first, after every entry scoring at least as much.
pub open spec fn insert_desc(s: Seq<(Move, i32)>, x: (Move, i32)) -> Seq<(Move, i32)>
    decreases s.len(),
{
    if s.len() == 0 {
        seq![x]
    } else if s.last().1 >= x.1 {
        s.push(x)
    } else {
        insert_desc(s.drop_last(), x).push(s.last())
    }
}

/// The entries ordered by score, best first, entries of equal score in the
/// order they came in (a stable sort).
pub open spec fn sort_desc(s: Seq<(Move, i32)>) -> Seq<(Move, i32)>
    decreases s.len(),
{
    if s.len() == 0 {
        s
    } else {
        insert_desc(sort_desc(s.drop_last()), s.last())
    }
}

/// How many of the best moves a random pick chooses among: half of them, at
/// least two, at most all.
pub open spec fn pick_range(len: int) -> int {
    let half = len / 2;
    let r = if half > 2 {
        half
    } else {
        2
    };
    if r < len {
        r
    } else {
        len
    }
}

/// The index chosen among `len` sorted moves given the random value `h`: with
/// probability `randomness` percent (`h % 100` below it) a move among the best
/// `pick_range(len)`, chosen by `h / 100`; otherwise the best move.
pub open spec fn pick_index(len: int, randomness: int, h: u64) -> int {
    if randomness > 0 && len > 1 && (h % 100) < randomness {
        ((h / 100) % (pick_range(len) as u64)) as int
    } else {
        0
    }
}

proof fn lemma_insert_desc(s: Seq<(Move, i32)>, x: (Move, i32), j: int)
    requires
        0 <= j <= s.len(),
        forall|k: int| j <= k < s.len() ==> s[k].1 < x.1,
        j == 0 || s[j - 1].1 >= x.1,
    ensures
        insert_desc(s, x) == s.take(j) + seq![x] + s.skip(j),
    decreases s.len(),
{
    if s.len() == 0 {
        assert(s.take(j) + seq![x] + s.skip(j) =~= seq![x]);
    } else if s.last().1 >= x.1 {
        assert(j == s.len());
        assert(s.take(j) + seq![x] + s.skip(j) =~= s.push(x));
    } else {
        let d = s.drop_last();
        lemma_insert_desc(d, x, j);
        assert(d.take(j) + seq![x] + d.skip(j) + seq![s.last()] =~= s.take(j) + seq![x] + s.skip(j));
    }
}

proof fn lemma_insert_desc_len(s: Seq<(Move, i32)>, x: (Move, i32))
    ensures
        insert_desc(s, x).len() == s.len() + 1,
        forall|k: int| 0 <= k < s.len() + 1 ==> #[trigger] insert_desc(s, x)[k] == x || s.contains(
            insert_desc(s, x)[k],
        ),
    decreases s.len(),
{
    if s.len() > 0 && s.last().1 < x.1 {
        let d = s.drop_last();
        lemma_insert_desc_len(d, x);
        assert forall|k: int| 0 <= k < s.len() + 1 implies #[trigger] insert_desc(s, x)[k] == x
            || s.contains(insert_desc(s, x)[k]) by {
            if k < s.len() {
                if insert_desc(d, x)[k] != x {
                    let w = choose|w: int| 0 <= w < d.len() && d[w] == insert_desc(d, x)[k];
                    assert(s[w] == d[w]);
                }
            } else {
                assert(s[s.len() - 1] == s.last());
            }
        }
    } else if s.len() > 0 {
        assert forall|k: int| 0 <= k < s.len() + 1 implies #[trigger] insert_desc(s, x)[k] == x
            || s.contains(insert_desc(s, x)[k]) by {
            if k < s.len() {
                assert(s[k] == insert_desc(s, x)[k]);
            }
        }
    }
}

/// Sorting keeps the length and takes every entry from the list sorted.
proof fn lemma_sort_desc(s: Seq<(Move, i32)>)
    ensures
        sort_desc(s).len() == s.len(),
        forall|k: int| 0 <= k < s.len() ==> s.contains(#[trigger] sort_desc(s)[k]),
    decreases s.len(),
{
    if s.len() > 0 {
        let d = s.drop_last();
        lemma_sort_desc(d);
        lemma_insert_desc_len(sort_desc(d), s.last());
        assert forall|k: int| 0 <= k < s.len() implies s.contains(#[trigger] sort_desc(s)[k]) by {
            let e = sort_desc(s)[k];
            if e == s.last() {
                assert(s[s.len() - 1] == e);
            } else {
                let w = choose|w: int| 0 <= w < sort_desc(d).len() && sort_desc(d)[w] == e;
                let v = choose|v: int| 0 <= v < d.len() && d[v] == sort_desc(d)[w];
                assert(s[v] == e);
            }
        }
    }
}

/// Sorts scored moves best first, keeping the order of equal scores.
fn sort_scored(v: Vec<(Move, i32)>) -> (r: Vec<(Move, i32)>)
    ensures
        r@ == sort_desc(v@),
{
    let mut r: Vec<(Move, i32)> = Vec::new();
    let mut i: usize = 0;
    while i < v.len()
        invariant
            i <= v.len(),
            r@ == sort_desc(v@.take(i as int)),
        decreases v.len() - i,
    {
        let x = v[i];
        let mut j: usize = r.len();
        while j > 0 && r[j - 1].1 < x.1
            invariant
                j <= r.len(),
                forall|k: int| j <= k < r.len() ==> r@[k].1 < x.1,
            decreases j,
        {
            j -= 1;
        }
        proof {
            lemma_insert_desc(r@, x, j as int);
            assert(v@.take(i + 1).drop_last() =~= v@.take(i as int));
            assert(v@.take(i + 1).last() == x);
        }
        r.insert(j, x);
        assert(r@ =~= sort_desc(v@.take(i + 1)));
        i += 1;
    }
    assert(v@.take(i as int) =~= v@);
    r
}

/// Picks a move from scored moves sorted best first, given a random value `h`.
pub fn pick_move(sorted: &Vec<(Move, i32)>, randomness: u8, h: u64) -> (m: Move)
    requires
        sorted.len() > 0,
    ensures
        0 <= pick_index(sorted.len() as int, randomness as int, h) < sorted.len(),
        m == sorted@[pick_index(sorted.len() as int, randomness as int, h)].0,
{
    if randomness > 0 && sorted.len() > 1 {
        let rand = (h % 100) as u8;
        if rand < randomness {
            // Pick a random move from the top half
            let half = sorted.len() / 2;
            let at_least_two = if half > 2 {
                half
            } else {
                2
            };
            let range = if at_least_two < sorted.len() {
                at_least_two
            } else {
                sorted.len()
            };
            let idx = (h / 100 % range as u64) as usize;
            return sorted[idx].0;
        }
    }
    sorted[0].0
}

/// Find the best move for the current position with the given personality.
/// Runs on the calling thread; call from a background thread for non-blocking.
pub fn find_best_move(pos: &Position, personality: &Personality) -> (r: Option<Move>)
    requires
        aggression_ok(personality.aggression),
    ensures
        r.is_none() <==> spec_legal_moves(*pos).len() == 0,
        r matches Some(m) ==> exists|h: u64|
            crate::clock::is_clock_hash(h) && m == sort_desc(scored_moves(*pos, personality.depth, personality.aggression as int))[
                pick_index(spec_legal_moves(*pos).len() as int, personality.randomness as int, h)].0,
        r matches Some(m) ==> spec_legal_moves(*pos).contains(m),
        r matches Some(m) ==> personality.randomness == 0 ==> m == sort_desc(
            scored_moves(*pos, personality.depth, personality.aggression as int),
        )[0].0,
{
    let moves = pos.legal_moves();
    if moves.len() == 0 {
        return None;
    }
    let ghost agg = personality.aggression as int;
    let depth = if personality.depth > 0 {
        personality.depth - 1
    } else {
        0
    };
    // Score all moves
    let mut scored: Vec<(Move, i32)> = Vec::new();
    let mut i: usize = 0;
    while i < moves.len()
        invariant
            i <= moves.len(),
            moves@ == spec_legal_moves(*pos),
            crate::board::all_in_range(moves@),
            aggression_ok(personality.aggression),
            agg == personality.aggression as int,
            depth as int == (if personality.depth > 0 {
                personality.depth - 1
            } else {
                0
            }),
            scored@ == scored_moves(*pos, personality.depth, agg).take(i as int),
        decreases moves.len() - i,
    {
        let mv = moves[i];
        assert(crate::board::move_in_range(moves@[i as int]));
        let new_pos = pos.make_move(mv);
        let score = -alpha_beta(&new_pos, depth, -KING_VAL, KING_VAL, personality);
        scored.push((mv, score));
        assert(scored@ =~= scored_moves(*pos, personality.depth, agg).take(i + 1));
        i += 1;
    }
    assert(scored@ =~= scored_moves(*pos, personality.depth, agg));
    // Sort by score, best first
    let sorted = sort_scored(scored);
    proof {
        lemma_sort_desc(scored_moves(*pos, personality.depth, agg));
    }
    // Apply randomness: sometimes pick a suboptimal move
    let h = if personality.randomness > 0 && sorted.len() > 1 {
        crate::clock::clock_hash()
    } else {
        0
    };
    let m = pick_move(&sorted, personality.randomness, h);
    proof {
        let k = pick_index(sorted.len() as int, personality.randomness as int, h);
        let e = sorted@[k];
        assert(scored_moves(*pos, personality.depth, agg).contains(e));
        let w = choose|w: int|
            0 <= w < scored_moves(*pos, personality.depth, agg).len() && scored_moves(
                *pos,
                personality.depth,
                agg,
            )[w] == e;
        assert(spec_legal_moves(*pos)[w] == m);
        if personality.randomness > 0 && sorted.len() > 1 {
            assert(crate::clock::is_clock_hash(h));
        } else {
            let h0 = DefaultHasher::spec_finish(seq![crate::clock::le_bytes(0)]);
            assert(crate::clock::is_hash_of(0, h0));
            assert(crate::clock::is_clock_hash(h0));
            assert(pick_index(sorted.len() as int, personality.randomness as int, h0) == 0);
            assert(pick_index(sorted.len() as int, personality.randomness as int, h) == 0);
        }
    }
    Some(m)
}

/// What a piece of type `pt` and colour `col` on `s` adds to the balance from
/// White's view: its value and placement bonus, positive for White.
pub open spec fn piece_gain(pt: int, col: int, s: int) -> int {
    if col == WHITE {
        spec_piece_value(pt) + spec_pst(pt, s, true)
    } else {
        -(spec_piece_value(pt) + spec_pst(pt, s, false))
    }
}

proof fn lemma_type_score_added(p: Position, pt: usize, col: usize, s: int, i: int, n: int)
    requires
        pt < 6,
        col < 2,
        0 <= s < 64,
        0 <= i < 6,
        0 <= n <= 64,
        !sq_in(p.colors[0], s),
        !sq_in(p.colors[1], s),
        forall|j: int| 0 <= j < 6 ==> !#[trigger] sq_in(p.pieces[j], s),
    ensures
        type_score(crate::board::with_piece(p, pt, col, s), i, n) == type_score(p, i, n) + (if i
            == pt && s < n {
            piece_gain(i, col as int, s)
        } else {
            0
        }),
    decreases n,
{
    if n > 0 {
        lemma_type_score_added(p, pt, col, s, i, n - 1);
        let q = crate::board::with_piece(p, pt, col, s);
        let x = n - 1;
        assert(sq_in(crate::board::bit_of(s), x) == (x == s));
        assert(sq_in(q.pieces[i], x) == (sq_in(p.pieces[i], x) || (i == pt && x == s)));
        assert(sq_in(q.colors[0], x) == (sq_in(p.colors[0], x) || (col == 0 && x == s)));
        assert(sq_in(q.colors[1], x) == (sq_in(p.colors[1], x) || (col == 1 && x == s)));
        assert(sq_in(q.pieces[i] & q.colors[0], x) == (sq_in(q.pieces[i], x) && sq_in(q.colors[0], x)));
        assert(sq_in(q.pieces[i] & q.colors[1], x) == (sq_in(q.pieces[i], x) && sq_in(q.colors[1], x)));
        assert(sq_in(p.pieces[i] & p.colors[0], x) == (sq_in(p.pieces[i], x) && sq_in(p.colors[0], x)));
        assert(sq_in(p.pieces[i] & p.colors[1], x) == (sq_in(p.pieces[i], x) && sq_in(p.colors[1], x)));
        assert(WHITE as int == 0 && BLACK as int == 1);
        assert(sq_score(q, i, x) == sq_score(p, i, x) + (if i == pt && x == s {
            piece_gain(i, col as int, s)
        } else {
            0
        }));
    }
}

proof fn lemma_material_added(p: Position, pt: usize, col: usize, s: int, k: int)
    requires
        pt < 6,
        col < 2,
        0 <= s < 64,
        0 <= k <= 6,
        !sq_in(p.colors[0], s),
        !sq_in(p.colors[1], s),
        forall|j: int| 0 <= j < 6 ==> !#[trigger] sq_in(p.pieces[j], s),
    ensures
        material(crate::board::with_piece(p, pt, col, s), k) == material(p, k) + (if pt < k {
            piece_gain(pt as int, col as int, s)
        } else {
            0
        }),
    decreases k,
{
    if k > 0 {
        lemma_material_added(p, pt, col, s, k - 1);
        lemma_type_score_added(p, pt, col, s, k - 1, 64);
    }
}

/// An extra piece is good for its side: put a piece on an empty square, and
/// the evaluation from the view of the side to move rises when the piece is
/// the mover's and falls when it is the opponent's. This holds outright with
/// the mobility term left out (no aggression), and for any aggression when
/// the extra piece leaves the number of legal moves unchanged.
pub proof fn law_extra_piece_evaluation(p: Position, pt: usize, col: usize, s: int, aggression: int)
    requires
        pt < 6,
        col < 2,
        0 <= s < 64,
        !sq_in(p.colors[0], s),
        !sq_in(p.colors[1], s),
        forall|j: int| 0 <= j < 6 ==> !#[trigger] sq_in(p.pieces[j], s),
    ensures
        ({
            let q = crate::board::with_piece(p, pt, col, s);
            let mine = col == crate::board::color_idx(p.side_to_move);
            &&& mine ==> spec_evaluate(q, 0) > spec_evaluate(p, 0)
            &&& !mine ==> spec_evaluate(q, 0) < spec_evaluate(p, 0)
            &&& spec_legal_moves(q).len() == spec_legal_moves(p).len() ==> (mine ==> spec_evaluate(
                q,
                aggression,
            ) > spec_evaluate(p, aggression)) && (!mine ==> spec_evaluate(q, aggression)
                < spec_evaluate(p, aggression))
        }),
{
    let q = crate::board::with_piece(p, pt, col, s);
    lemma_material_added(p, pt, col, s, 6);
    lemma_pst_bound(pt as int, s, true);
    lemma_pst_bound(pt as int, s, false);
    assert(col == WHITE ==> piece_gain(pt as int, col as int, s) > 0);
    assert(col != WHITE ==> piece_gain(pt as int, col as int, s) < 0);
    assert(q.side_to_move == p.side_to_move);
    assert(spec_legal_moves(q).len() * 0 == 0);
    assert(spec_legal_moves(p).len() * 0 == 0);
}

/// Every opponent on offer can be asked for a move: its aggression is within
/// what the search takes.
pub proof fn law_personalities_playable(i: int)
    requires
        0 <= i < spec_personalities().len(),
    ensures
        aggression_ok(spec_personalities()[i].aggression),
        spec_personalities().len() == 10,
{
}

} // verus!
