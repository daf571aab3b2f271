//! Mini-games for chess skill training: Knight's Tour, Color Quiz, Blindfold.
use vstd::prelude::*;

use crate::bits::{group_bits, square_bit};
use crate::board::{empty_position, on_board, Position, KNIGHT, WHITE};
use crate::clock::{clock_hash, is_clock_hash};
use crate::text::{lemma_contains_push, push_char};

verus! {

broadcast use group_bits;

// ── Knight's Tour ──────────────────────────────────────────────────

/// The player must move a knight to visit every square exactly once.
pub struct KnightTour {
    pub knight_sq: u8,
    pub visited: [bool; 64],
    pub visit_count: usize,
    pub move_history: Vec<u8>,
}

/// The square a knight jump of (`dr`, `df`) from `sq` lands on, as a one-element
/// sequence when it is on the board and not yet visited.
pub open spec fn jump(t: KnightTour, dr: int, df: int) -> Seq<u8> {
    let r = t.knight_sq / 8 + dr;
    let f = t.knight_sq % 8 + df;
    if on_board(r, f) && !t.visited[r * 8 + f] {
        seq![(r * 8 + f) as u8]
    } else {
        seq![]
    }
}

/// The unvisited squares a knight jump away, in the order (-2,-1), (-2,1),
/// (-1,-2), (-1,2), (1,-2), (1,2), (2,-1), (2,1) of (rank, file) steps.
pub open spec fn tour_moves(t: KnightTour) -> Seq<u8> {
    jump(t, -2, -1) + jump(t, -2, 1) + jump(t, -1, -2) + jump(t, -1, 2) + jump(t, 1, -2) + jump(
        t,
        1,
        2,
    ) + jump(t, 2, -1) + jump(t, 2, 1)
}

/// A consistent tour: the knight stands on the last square of its history, the
/// history holds distinct squares, and exactly those squares are visited.
pub open spec fn tour_wf(t: KnightTour) -> bool {
    let h = t.move_history@;
    &&& h.len() >= 1
    &&& h.last() == t.knight_sq
    &&& t.visit_count == h.len()
    &&& forall|i: int| 0 <= i < h.len() ==> #[trigger] h[i] < 64
    &&& forall|i: int, j: int| 0 <= i < j < h.len() ==> h[i] != h[j]
    &&& forall|s: int| 0 <= s < 64 ==> (#[trigger] t.visited[s] <==> h.contains(s as u8))
}

/// The visited squares below `n` other than the knight's own, ascending.
pub open spec fn visited_below(t: KnightTour, n: int) -> Seq<u8>
    decreases n,
{
    if n <= 0 {
        seq![]
    } else {
        visited_below(t, n - 1) + if t.visited[n - 1] && n - 1 != t.knight_sq {
            seq![(n - 1) as u8]
        } else {
            seq![]
        }
    }
}

impl KnightTour {
    pub fn new(start: u8) -> (t: Self)
        requires
            start < 64,
        ensures
            t.knight_sq == start,
            forall|s: int| 0 <= s < 64 ==> #[trigger] t.visited[s] == (s == start),
            t.visit_count == 1,
            t.move_history@ == seq![start],
            tour_wf(t),
    {
        let mut visited = [false; 64];
        visited[start as usize] = true;
        let t = KnightTour { knight_sq: start, visited, visit_count: 1, move_history: vec![start] };
        assert(t.move_history@ =~= seq![start]);
        assert forall|s: int| 0 <= s < 64 implies (#[trigger] t.visited[s] <==> t.move_history@.contains(
            s as u8,
        )) by {
            if t.visited[s] {
                assert(t.move_history@[0] == s as u8);
            }
        }
        t
    }

    fn push_jump(&self, moves: &mut Vec<u8>, r: i8, f: i8)
        requires
            -2 <= r - self.knight_sq / 8 <= 2,
            -2 <= f - self.knight_sq % 8 <= 2,
        ensures
            final(moves)@ == old(moves)@ + jump(
                *self,
                r - self.knight_sq / 8,
                f - self.knight_sq % 8,
            ),
    {
        let ghost start = moves@;
        if r >= 0 && r < 8 && f >= 0 && f < 8 {
            let sq = (r as u8) * 8 + (f as u8);
            if !self.visited[sq as usize] {
                moves.push(sq);
            }
        }
        assert(moves@ =~= start + jump(*self, r - self.knight_sq / 8, f - self.knight_sq % 8));
    }

    /// All knight moves from the current square to squares not yet visited.
    pub fn legal_moves(&self) -> (moves: Vec<u8>)
        ensures
            moves@ == tour_moves(*self),
    {
        let r = (self.knight_sq / 8) as i8;
        let f = (self.knight_sq % 8) as i8;
        let mut moves: Vec<u8> = Vec::new();
        self.push_jump(&mut moves, r - 2, f - 1);
        self.push_jump(&mut moves, r - 2, f + 1);
        self.push_jump(&mut moves, r - 1, f - 2);
        self.push_jump(&mut moves, r - 1, f + 2);
        self.push_jump(&mut moves, r + 1, f - 2);
        self.push_jump(&mut moves, r + 1, f + 2);
        self.push_jump(&mut moves, r + 2, f - 1);
        self.push_jump(&mut moves, r + 2, f + 1);
        assert(moves@ =~= tour_moves(*self));
        moves
    }

    /// Try to move to a square. Returns true if successful.
    pub fn try_move(&mut self, to: u8) -> (ok: bool)
        requires
            old(self).visit_count < usize::MAX,
        ensures
            ok == tour_moves(*old(self)).contains(to),
            ok ==> final(self).knight_sq == to && final(self).visited@ == old(self).visited@.update(
                to as int,
                true,
            ) && final(self).visit_count == old(self).visit_count + 1
                && final(self).move_history@ == old(self).move_history@.push(to),
            !ok ==> *final(self) == *old(self),
            tour_wf(*old(self)) ==> tour_wf(*final(self)),
    {
        let moves = self.legal_moves();
        let mut found = false;
        let mut i: usize = 0;
        while i < moves.len()
            invariant
                i <= moves.len(),
                moves@ == tour_moves(*self),
                found == moves@.take(i as int).contains(to),
            decreases moves.len() - i,
        {
            if moves[i] == to {
                found = true;
            }
            assert(moves@.take(i + 1) =~= moves@.take(i as int).push(moves@[i as int]));
            proof {
                lemma_contains_push(moves@.take(i as int), moves@[i as int], to);
            }
            i += 1;
        }
        assert(moves@.take(i as int) =~= moves@);
        if found {
            assert(to < 64) by {
                let k = choose|k: int| 0 <= k < moves@.len() && moves@[k] == to;
            }
            self.knight_sq = to;
            self.visited[to as usize] = true;
            self.visit_count += 1;
            self.move_history.push(to);
            proof {
                if tour_wf(*old(self)) {
                    lemma_move_wf(*old(self), *self, to);
                }
            }
            true
        } else {
            false
        }
    }

    /// Undo the last move.
    pub fn undo(&mut self)
        requires
            old(self).move_history@.len() > 1 ==> old(self).move_history@.last() < 64
                && old(self).visit_count > 0,
        ensures
            old(self).move_history@.len() > 1 ==> {
                &&& final(self).move_history@ == old(self).move_history@.drop_last()
                &&& final(self).visited@ == old(self).visited@.update(
                    old(self).move_history@.last() as int,
                    false,
                )
                &&& final(self).visit_count == old(self).visit_count - 1
                &&& final(self).knight_sq == final(self).move_history@.last()
            },
            old(self).move_history@.len() <= 1 ==> *final(self) == *old(self),
            tour_wf(*old(self)) ==> tour_wf(*final(self)),
    {
        if self.move_history.len() > 1 {
            let last = self.move_history.pop().unwrap();
            self.visited[last as usize] = false;
            self.visit_count -= 1;
            let n = self.move_history.len();
            self.knight_sq = self.move_history[n - 1];
            proof {
                if tour_wf(*old(self)) {
                    lemma_undo_wf(*old(self), *self);
                }
            }
        }
    }

    pub fn is_complete(&self) -> (r: bool)
        ensures
            r == (self.visit_count == 64),
    {
        self.visit_count == 64
    }

    pub fn is_stuck(&self) -> (r: bool)
        ensures
            r == (tour_moves(*self).len() == 0 && self.visit_count != 64),
    {
        self.legal_moves().len() == 0 && !self.is_complete()
    }

    /// A position with just the knight, as a white knight, for display.
    pub fn to_position(&self) -> (p: Position)
        requires
            self.knight_sq < 64,
        ensures
            p == (Position {
                pieces: [0u64, 1u64 << (self.knight_sq as u64), 0u64, 0u64, 0u64, 0u64],
                colors: [1u64 << (self.knight_sq as u64), 0u64],
                ..empty_position()
            }),
    {
        let mut pos = Position::empty();
        pos.pieces[KNIGHT] = square_bit(self.knight_sq);
        pos.colors[WHITE] = square_bit(self.knight_sq);
        let ghost want = Position {
            pieces: [0u64, 1u64 << (self.knight_sq as u64), 0u64, 0u64, 0u64, 0u64],
            colors: [1u64 << (self.knight_sq as u64), 0u64],
            ..empty_position()
        };
        assert(pos.pieces =~= want.pieces);
        assert(pos.colors =~= want.colors);
        pos
    }

    /// The visited squares other than the knight's own, ascending (for highlighting).
    pub fn visited_mask(&self) -> (r: Vec<u8>)
        ensures
            r@ == visited_below(*self, 64),
    {
        let mut r: Vec<u8> = Vec::new();
        let mut i: u8 = 0;
        while i < 64
            invariant
                i <= 64,
                r@ == visited_below(*self, i as int),
            decreases 64 - i,
        {
            if self.visited[i as usize] && i != self.knight_sq {
                r.push(i);
            }
            assert(r@ =~= visited_below(*self, i + 1));
            i += 1;
        }
        r
    }
}

/// A move to a square the knight may jump to keeps the tour consistent.
proof fn lemma_move_wf(before: KnightTour, moved: KnightTour, to: u8)
    requires
        tour_wf(before),
        tour_moves(before).contains(to),
        moved.knight_sq == to,
        moved.visited@ == before.visited@.update(to as int, true),
        moved.visit_count == before.visit_count + 1,
        moved.move_history@ == before.move_history@.push(to),
    ensures
        tour_wf(moved),
{
    let h = before.move_history@;
    let k = choose|k: int| 0 <= k < tour_moves(before).len() && tour_moves(before)[k] == to;
    // every square the knight may jump to is on the board and unvisited
    assert(to < 64 && !before.visited[to as int]);
    assert(!h.contains(to));
    let h2 = moved.move_history@;
    assert forall|i: int, j: int| 0 <= i < j < h2.len() implies h2[i] != h2[j] by {
        if j == h2.len() - 1 {
            assert(h2[i] == h[i]);
        }
    }
    assert forall|s: int| 0 <= s < 64 implies (#[trigger] moved.visited[s] <==> h2.contains(
        s as u8,
    )) by {
        assert(moved.visited[s] == moved.visited@[s]);
        assert(before.visited[s] == before.visited@[s]);
        assert(h2[h2.len() - 1] == to);
        if s == to {
            assert(h2.contains(to));
        }
        if h2.contains(s as u8) && s != to {
            let w = choose|w: int| 0 <= w < h2.len() && h2[w] == s as u8;
            assert(h[w] == s as u8);
        }
        if h.contains(s as u8) {
            let w = choose|w: int| 0 <= w < h.len() && h[w] == s as u8;
            assert(h2[w] == s as u8);
        }
    }
}


/// Taking back the last move of a tour keeps it consistent.
proof fn lemma_undo_wf(t: KnightTour, u: KnightTour)
    requires
        tour_wf(t),
        t.move_history@.len() > 1,
        u.move_history@ == t.move_history@.drop_last(),
        u.visited@ == t.visited@.update(t.move_history@.last() as int, false),
        u.visit_count == t.visit_count - 1,
        u.knight_sq == u.move_history@.last(),
    ensures
        tour_wf(u),
{
    let h = t.move_history@;
    let h2 = u.move_history@;
    let x = h.last();
    assert forall|s: int| 0 <= s < 64 implies (#[trigger] u.visited[s] <==> h2.contains(s as u8)) by {
        if h2.contains(s as u8) {
            let w = choose|w: int| 0 <= w < h2.len() && h2[w] == s as u8;
            assert(h[w] == s as u8);
            assert(h[h.len() - 1] == x);
            assert(s != x);
        }
        if t.visited[s] && s != x {
            assert(h.contains(s as u8));
            let w = choose|w: int| 0 <= w < h.len() && h[w] == s as u8;
            assert(w != h.len() - 1);
            assert(h2[w] == s as u8);
        }
    }
}

/// A successful move keeps the tour consistent, and undoing it restores the
/// tour exactly.
pub proof fn law_tour_move_undo(before: KnightTour, moved: KnightTour, undone: KnightTour, to: u8)
    requires
        tour_wf(before),
        tour_moves(before).contains(to),
        moved.knight_sq == to,
        moved.visited@ == before.visited@.update(to as int, true),
        moved.visit_count == before.visit_count + 1,
        moved.move_history@ == before.move_history@.push(to),
        undone.move_history@ == moved.move_history@.drop_last(),
        undone.visited@ == moved.visited@.update(moved.move_history@.last() as int, false),
        undone.visit_count == moved.visit_count - 1,
        undone.knight_sq == undone.move_history@.last(),
    ensures
        tour_wf(moved),
        undone.knight_sq == before.knight_sq,
        undone.visited@ == before.visited@,
        undone.visit_count == before.visit_count,
        undone.move_history@ == before.move_history@,
{
    lemma_move_wf(before, moved, to);
    let h = before.move_history@;
    let h2 = moved.move_history@;
    assert(to < 64 && !before.visited[to as int]) by {
        let k = choose|k: int| 0 <= k < tour_moves(before).len() && tour_moves(before)[k] == to;
    }
    assert(h2.drop_last() =~= h);
    assert(undone.visited@ =~= before.visited@);
}

/// The squares the tour has visited.
pub open spec fn visited_squares(t: KnightTour) -> Set<int> {
    Set::new(|s: int| 0 <= s < 64 && t.visited[s])
}

/// In a consistent tour the count of visits is the number of squares visited,
/// so the tour is complete exactly when every square is visited.
pub proof fn law_tour_counts_visits(t: KnightTour)
    requires
        tour_wf(t),
    ensures
        visited_squares(t).len() == t.visit_count,
        (t.visit_count == 64) <==> (forall|s: int| 0 <= s < 64 ==> t.visited[s]),
{
    let h = t.move_history@;
    let m = h.map_values(|x: u8| x as int);
    assert(m.no_duplicates()) by {
        assert forall|i: int, j: int| 0 <= i < m.len() && 0 <= j < m.len() && i != j implies m[i]
            != m[j] by {
            if i < j {
                assert(h[i] != h[j]);
            } else {
                assert(h[j] != h[i]);
            }
        }
    }
    assert(m.to_set() =~= visited_squares(t)) by {
        assert forall|s: int| #[trigger] m.to_set().contains(s) == visited_squares(t).contains(s) by {
            if m.to_set().contains(s) {
                assert(m.contains(s));
                let w = choose|w: int| 0 <= w < m.len() && m[w] == s;
                assert(h[w] < 64);
                assert(h.contains(s as u8));
            }
            if visited_squares(t).contains(s) {
                assert(h.contains(s as u8));
                let w = choose|w: int| 0 <= w < h.len() && h[w] == s as u8;
                assert(m[w] == s);
                assert(m.contains(s));
            }
        }
    }
    m.unique_seq_to_set();
    let full = vstd::set_lib::set_int_range(0, 64);
    vstd::set_lib::lemma_int_range(0, 64);
    vstd::set_lib::lemma_len_subset(visited_squares(t), full);
    if forall|s: int| 0 <= s < 64 ==> t.visited[s] {
        assert(visited_squares(t) =~= full);
    } else {
        let s0 = choose|s: int| 0 <= s < 64 && !t.visited[s];
        vstd::set_lib::lemma_len_subset(visited_squares(t), full.remove(s0));
    }
}

// ── Color Quiz ─────────────────────────────────────────────────────

/// Flash a square name, player answers if it's light or dark.
pub struct ColorQuiz {
    pub current_square: u8,
    pub score: usize,
    pub total: usize,
    pub streak: usize,
    pub best_streak: usize,
}

/// A light square: rank plus file is odd.
pub open spec fn spec_is_light(sq: u8) -> bool {
    (sq / 8 + sq % 8) % 2 == 1
}

/// The decimal digits of `n` (below 100).
pub open spec fn decimal(n: int) -> Seq<char> {
    if n < 10 {
        seq![(n + 48) as char]
    } else {
        seq![(n / 10 + 48) as char, (n % 10 + 48) as char]
    }
}

/// The square's name: file letter from 'a', then the rank number from 1.
pub open spec fn spec_square_name(sq: u8) -> Seq<char> {
    seq![((sq % 8) + 97) as char] + decimal(sq / 8 + 1)
}

/// The quiz's counters agree: correct answers never exceed answers, and the best
/// streak is at least the current one and at most the correct answers.
pub open spec fn quiz_wf(q: ColorQuiz) -> bool {
    q.score <= q.total && q.streak <= q.best_streak && q.best_streak <= q.score
}

impl ColorQuiz {
    pub fn new() -> (q: Self)
        ensures
            q.current_square < 64,
            exists|h: u64| is_clock_hash(h) && q.current_square == h % 64,
            q.score == 0 && q.total == 0 && q.streak == 0 && q.best_streak == 0,
            quiz_wf(q),
    {
        ColorQuiz { current_square: Self::random_square(), score: 0, total: 0, streak: 0, best_streak: 0 }
    }

    fn random_square() -> (sq: u8)
        ensures
            sq < 64,
            exists|h: u64| is_clock_hash(h) && sq == h % 64,
    {
        let h = clock_hash();
        let sq = (h % 64) as u8;
        assert(is_clock_hash(h) && sq == h % 64);
        sq
    }

    pub fn square_name(&self) -> (s: String)
        ensures
            s@ == spec_square_name(self.current_square),
    {
        let mut s = String::new();
        push_char(&mut s, ((self.current_square % 8) + 97) as char);
        let rank = self.current_square / 8 + 1;
        if rank < 10 {
            push_char(&mut s, (rank + 48) as char);
        } else {
            push_char(&mut s, (rank / 10 + 48) as char);
            push_char(&mut s, (rank % 10 + 48) as char);
        }
        assert(s@ =~= spec_square_name(self.current_square));
        s
    }

    pub fn is_light(&self) -> (r: bool)
        ensures
            r == spec_is_light(self.current_square),
    {
        let rank = self.current_square / 8;
        let file = self.current_square % 8;
        (rank + file) % 2 == 1
    }

    /// The player guesses; `next_square` becomes the square asked next. Returns
    /// true if the guess was right.
    pub fn guess_with(&mut self, light: bool, next_square: u8) -> (correct: bool)
        requires
            old(self).total < usize::MAX,
            old(self).score < usize::MAX,
            old(self).streak < usize::MAX,
        ensures
            correct == (light == spec_is_light(old(self).current_square)),
            final(self).total == old(self).total + 1,
            correct ==> final(self).score == old(self).score + 1 && final(self).streak == old(
                self,
            ).streak + 1 && final(self).best_streak == (if old(self).streak + 1 > old(
                self,
            ).best_streak {
                old(self).streak + 1
            } else {
                old(self).best_streak as int
            }),
            !correct ==> final(self).score == old(self).score && final(self).streak == 0
                && final(self).best_streak == old(self).best_streak,
            final(self).current_square == next_square,
            quiz_wf(*old(self)) ==> quiz_wf(*final(self)),
    {
        self.total += 1;
        let correct = light == self.is_light();
        if correct {
            self.score += 1;
            self.streak += 1;
            if self.streak > self.best_streak {
                self.best_streak = self.streak;
            }
        } else {
            self.streak = 0;
        }
        self.current_square = next_square;
        correct
    }

    /// The player guesses. Returns true if correct; a new random square is asked next.
    pub fn guess(&mut self, light: bool) -> (correct: bool)
        requires
            old(self).total < usize::MAX,
            old(self).score < usize::MAX,
            old(self).streak < usize::MAX,
        ensures
            correct == (light == spec_is_light(old(self).current_square)),
            final(self).total == old(self).total + 1,
            correct ==> final(self).score == old(self).score + 1 && final(self).streak == old(
                self,
            ).streak + 1 && final(self).best_streak == (if old(self).streak + 1 > old(
                self,
            ).best_streak {
                old(self).streak + 1
            } else {
                old(self).best_streak as int
            }),
            !correct ==> final(self).score == old(self).score && final(self).streak == 0
                && final(self).best_streak == old(self).best_streak,
            final(self).current_square < 64,
            quiz_wf(*old(self)) ==> quiz_wf(*final(self)),
    {
        let next = Self::random_square();
        self.guess_with(light, next)
    }
}

// ── Blindfold Mode ─────────────────────────────────────────────────

/// Standard game but pieces are hidden. Toggle visibility.
pub struct BlindFold {
    pub hidden: bool,
    pub position: Position,
    pub peek_count: usize,
}

impl BlindFold {
    pub fn new() -> (b: Self)
        ensures
            b.hidden,
            b.peek_count == 0,
            b.position == crate::board::start_position(),
    {
        BlindFold { hidden: true, position: Position::start(), peek_count: 0 }
    }

    /// Shows or hides the pieces; each showing counts as a peek.
    pub fn toggle(&mut self)
        requires
            old(self).hidden ==> old(self).peek_count < usize::MAX,
        ensures
            final(self).hidden == !old(self).hidden,
            final(self).peek_count == old(self).peek_count + if old(self).hidden {
                1int
            } else {
                0int
            },
            final(self).position == old(self).position,
    {
        self.hidden = !self.hidden;
        if !self.hidden {
            self.peek_count += 1;
        }
    }
}

/// The quiz asks the colour the board shows: a square is light in the quiz
/// exactly when the board draws it light (when no cursor, selection or
/// highlight is on it). Squares next to each other along a rank or a file
/// differ in colour, and the corner square at each player's right hand, h1
/// for White and a8 for Black, is light.
pub proof fn law_quiz_colours_match_board(sq: u8, cursor: u8)
    requires
        sq < 64,
        cursor != sq,
    ensures
        spec_is_light(sq) == (crate::ui::spec_shade(sq, cursor, None, seq![]) == crate::ui::Shade::Light),
        sq % 8 < 7 ==> spec_is_light(sq) != spec_is_light((sq + 1) as u8),
        sq < 56 ==> spec_is_light(sq) != spec_is_light((sq + 8) as u8),
        spec_is_light(7) && spec_is_light(56),
{
    assert(!seq![].contains(sq));
}

} // verus!
