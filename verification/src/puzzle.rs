//! Chess puzzles from the Lichess CSV export: one puzzle per line, its fields
//! separated by commas (no quoting), and an index of the lines by theme.
use vstd::prelude::*;

use crate::text::{chars_of, parse_dec, parse_unsigned, trim_end, trimmed_end, words, words_of};

verus! {

// ── CSV fields ─────────────────────────────────────────────────────

/// The index of the first comma in `s` at or after `i`, or -1.
pub open spec fn comma_at(s: Seq<char>, i: int) -> int
    decreases s.len() - i,
{
    if i < 0 || i >= s.len() {
        -1
    } else if s[i] == ',' {
        i
    } else {
        comma_at(s, i + 1)
    }
}

pub proof fn lemma_comma_at(s: Seq<char>, i: int)
    requires
        0 <= i,
    ensures
        comma_at(s, i) == -1 || (i <= comma_at(s, i) < s.len() && s[comma_at(s, i)] == ','),
        forall|k: int| i <= k < s.len() && (comma_at(s, i) == -1 || k < comma_at(s, i)) ==> s[k] != ',',
    decreases s.len() - i,
{
    if i < s.len() && s[i] != ',' {
        lemma_comma_at(s, i + 1);
    }
}

/// Finding a comma in a suffix finds the same comma, counted from the suffix.
pub proof fn lemma_comma_shift(s: Seq<char>, i: int, j: int)
    requires
        0 <= i <= s.len(),
        0 <= j,
    ensures
        comma_at(s.subrange(i, s.len() as int), j) == if comma_at(s, i + j) < 0 {
            -1
        } else {
            comma_at(s, i + j) - i
        },
    decreases s.len() - i - j,
{
    let t = s.subrange(i, s.len() as int);
    if j < t.len() && t[j] != ',' {
        lemma_comma_shift(s, i, j + 1);
    }
}

/// The fields of `s` from index `i` on: the text between commas, up to the
/// end, every field kept (empty ones too).
pub open spec fn fields_from(s: Seq<char>, i: int) -> Seq<Seq<char>>
    decreases s.len() - i,
{
    let p = comma_at(s, i);
    if i < 0 || i > s.len() || p < 0 {
        seq![s.subrange(i, s.len() as int)]
    } else {
        proof {
            lemma_comma_at(s, i);
        }
        seq![s.subrange(i, p)] + fields_from(s, p + 1)
    }
}

/// The comma-separated fields of a line.
pub open spec fn csv_fields(s: Seq<char>) -> Seq<Seq<char>> {
    fields_from(s, 0)
}

/// The fields a `CsvFieldIter` yields from index `i` on: as `fields_from`, but
/// nothing once the text is used up (so no empty last field).
pub open spec fn iter_from(s: Seq<char>, i: int) -> Seq<Seq<char>>
    decreases s.len() - i,
{
    if i < 0 || i >= s.len() {
        seq![]
    } else {
        let p = comma_at(s, i);
        if p < 0 {
            seq![s.subrange(i, s.len() as int)]
        } else {
            proof {
                lemma_comma_at(s, i);
            }
            seq![s.subrange(i, p)] + iter_from(s, p + 1)
        }
    }
}

/// The fields of a suffix are the fields from where the suffix starts.
pub proof fn lemma_iter_shift(s: Seq<char>, i: int, j: int)
    requires
        0 <= i <= s.len(),
        0 <= j,
    ensures
        iter_from(s.subrange(i, s.len() as int), j) == iter_from(s, i + j),
    decreases s.len() - i - j,
{
    let t = s.subrange(i, s.len() as int);
    lemma_comma_shift(s, i, j);
    if j < t.len() {
        let p = comma_at(s, i + j);
        lemma_comma_at(s, i + j);
        if p >= 0 {
            lemma_iter_shift(s, i, p - i + 1);
            assert(t.subrange(j, p - i) =~= s.subrange(i + j, p));
        } else {
            assert(t.subrange(j, t.len() as int) =~= s.subrange(i + j, s.len() as int));
        }
    }
}

/// The index of the first comma in `cs` at or after `i`.
fn find_comma(cs: &Vec<char>, i: usize) -> (r: Option<usize>)
    ensures
        match r {
            Some(p) => p as int == comma_at(cs@, i as int) && i <= p < cs.len(),
            None => comma_at(cs@, i as int) == -1,
        },
{
    let mut k = i;
    proof {
        lemma_comma_at(cs@, i as int);
    }
    while k < cs.len()
        invariant
            i <= k,
            comma_at(cs@, k as int) == comma_at(cs@, i as int),
        decreases cs.len() - k,
    {
        if cs[k] == ',' {
            return Some(k);
        }
        k += 1;
    }
    None
}

/// Walks the comma-separated fields of a line, without allocating.
pub struct CsvFieldIter<'a> {
    pub remaining: &'a str,
}

impl<'a> CsvFieldIter<'a> {
    pub fn new(line: &'a str) -> (it: Self)
        ensures
            it.remaining@ == line@,
    {
        CsvFieldIter { remaining: line }
    }

    /// The next field, or `None` once the line is used up.
    pub fn next(&mut self) -> (r: Option<&'a str>)
        ensures
            iter_from(old(self).remaining@, 0).len() == 0 ==> r is None && final(self).remaining@
                == old(self).remaining@,
            iter_from(old(self).remaining@, 0).len() > 0 ==> r is Some && r.unwrap()@ == iter_from(
                old(self).remaining@,
                0,
            )[0] && iter_from(final(self).remaining@, 0) == iter_from(old(self).remaining@, 0).drop_first(),
    {
        let ghost rem = self.remaining@;
        let cs = chars_of(self.remaining);
        if cs.len() == 0 {
            return None;
        }
        match find_comma(&cs, 0) {
            Some(p) => {
                let field = self.remaining.substring_char(0, p);
                self.remaining = self.remaining.substring_char(p + 1, cs.len());
                proof {
                    lemma_iter_shift(rem, p + 1, 0);
                    assert(iter_from(rem, 0) =~= seq![rem.subrange(0, p as int)] + iter_from(
                        rem,
                        p + 1,
                    ));
                }
                Some(field)
            },
            None => {
                let field = self.remaining;
                self.remaining = "";
                assert(rem.subrange(0, rem.len() as int) =~= rem);
                assert(iter_from(rem, 0) =~= seq![rem]);
                proof {
                    assert(self.remaining@.len() == 0) by {
                        reveal_strlit("");
                    }
                }
                Some(field)
            },
        }
    }
}

/// The `n`-th field (from 0) of a line, if it has that many.
pub fn nth_csv_field(line: &str, n: usize) -> (r: Option<&str>)
    ensures
        match r {
            Some(f) => n < csv_fields(line@).len() && f@ == csv_fields(line@)[n as int],
            None => n >= csv_fields(line@).len(),
        },
{
    let cs = chars_of(line);
    let mut start: usize = 0;
    let mut k: usize = 0;
    assert(csv_fields(line@).skip(0) =~= csv_fields(line@));
    assert(csv_fields(line@).len() >= 1);
    while k < n
        invariant
            k <= n,
            start <= cs.len(),
            cs@ == line@,
            k < csv_fields(line@).len(),
            fields_from(cs@, start as int) == csv_fields(line@).skip(k as int),
        decreases n - k,
    {
        match find_comma(&cs, start) {
            Some(p) => {
                let ghost f = fields_from(cs@, start as int);
                assert(f.drop_first() == fields_from(cs@, p + 1));
                assert(fields_from(cs@, p + 1).len() >= 1);
                assert(csv_fields(line@).skip(k + 1) =~= f.drop_first());
                start = p + 1;
            },
            None => {
                assert(fields_from(cs@, start as int).len() == 1);
                return None;
            },
        }
        k += 1;
    }
    let end = match find_comma(&cs, start) {
        Some(p) => p,
        None => cs.len(),
    };
    assert(fields_from(cs@, start as int)[0] == cs@.subrange(start as int, end as int));
    Some(line.substring_char(start, end))
}

// ── Puzzles ────────────────────────────────────────────────────────

/// A chess puzzle: a position, the moves of its line (the first one sets the
/// puzzle up), its rating and its theme tags.
#[derive(Clone, Debug)]
pub struct Puzzle {
    pub id: String,
    pub fen: String,
    pub moves: Vec<String>,
    pub rating: u16,
    pub themes: Vec<String>,
}

pub struct PuzzleV {
    pub id: Seq<char>,
    pub fen: Seq<char>,
    pub moves: Seq<Seq<char>>,
    pub rating: u16,
    pub themes: Seq<Seq<char>>,
}

pub open spec fn strings_view(v: Seq<String>) -> Seq<Seq<char>> {
    v.map_values(|s: String| s@)
}

impl View for Puzzle {
    type V = PuzzleV;

    open spec fn view(&self) -> PuzzleV {
        PuzzleV {
            id: self.id@,
            fen: self.fen@,
            moves: strings_view(self.moves@),
            rating: self.rating,
            themes: strings_view(self.themes@),
        }
    }
}

/// The puzzle a CSV line describes: id, FEN, moves, rating, three fields
/// skipped (rating deviation, popularity, plays), then the themes; moves and
/// themes are separated by white space. `None` when a field is missing or the
/// rating is not a number that fits a `u16`.
pub open spec fn puzzle_of_line(line: Seq<char>) -> Option<PuzzleV> {
    let f = iter_from(line, 0);
    if f.len() < 8 {
        None
    } else {
        match parse_dec(f[3], 65535) {
            Some(r) => Some(
                PuzzleV {
                    id: f[0],
                    fen: f[1],
                    moves: words(f[2]),
                    rating: r as u16,
                    themes: words(f[7]),
                },
            ),
            None => None,
        }
    }
}

impl Puzzle {
    /// The moves the solver has to find: all but the setting-up first one.
    pub fn solution_moves(&self) -> (r: &[String])
        ensures
            r@ == if self.moves.len() > 1 {
                self.moves@.subrange(1, self.moves.len() as int)
            } else {
                seq![]
            },
    {
        if self.moves.len() > 1 {
            vstd::slice::slice_subrange(self.moves.as_slice(), 1, self.moves.len())
        } else {
            let r = vstd::slice::slice_subrange(self.moves.as_slice(), 0, 0);
            assert(r@ =~= seq![]);
            r
        }
    }

    /// Reads a puzzle from a line of the CSV export.
    pub fn from_csv_line(line: &str) -> (r: Option<Self>)
        ensures
            match r {
                Some(p) => puzzle_of_line(line@) == Some(p@),
                None => puzzle_of_line(line@).is_none(),
            },
    {
        let ghost f = iter_from(line@, 0);
        let mut fields = CsvFieldIter::new(line);
        let id = match fields.next() {
            Some(x) => x,
            None => {
                return None;
            },
        };
        assert(iter_from(fields.remaining@, 0) == f.skip(1));
        let fen = match fields.next() {
            Some(x) => x,
            None => {
                return None;
            },
        };
        assert(iter_from(fields.remaining@, 0) =~= f.skip(2));
        let moves_str = match fields.next() {
            Some(x) => x,
            None => {
                return None;
            },
        };
        assert(iter_from(fields.remaining@, 0) =~= f.skip(3));
        let rating_str = match fields.next() {
            Some(x) => x,
            None => {
                return None;
            },
        };
        assert(iter_from(fields.remaining@, 0) =~= f.skip(4));
        if fields.next().is_none() {
            return None;
        }
        assert(iter_from(fields.remaining@, 0) =~= f.skip(5));
        if fields.next().is_none() {
            return None;
        }
        assert(iter_from(fields.remaining@, 0) =~= f.skip(6));
        if fields.next().is_none() {
            return None;
        }
        assert(iter_from(fields.remaining@, 0) =~= f.skip(7));
        let themes_str = match fields.next() {
            Some(x) => x,
            None => {
                return None;
            },
        };
        assert(f.len() >= 8);
        assert(id@ == f[0] && fen@ == f[1] && moves_str@ == f[2] && rating_str@ == f[3]);
        assert(themes_str@ == f[7]);
        let rating = match parse_unsigned(rating_str, 65535) {
            Some(v) => v as u16,
            None => {
                return None;
            },
        };
        let moves = words_of(moves_str);
        let themes = words_of(themes_str);
        Some(Puzzle { id: id.to_owned(), fen: fen.to_owned(), moves, rating, themes })
    }
}

// ── Themes ─────────────────────────────────────────────────────────

/// The tactic themes offered for practice: Lichess theme tag and display name.
pub const TACTIC_THEMES: [(&'static str, &'static str); 27] = [
    ("fork", "Fork / Double Attack"),
    ("pin", "Pin"),
    ("skewer", "Skewer"),
    ("discoveredAttack", "Discovered Attack"),
    ("mateIn1", "Mate in 1"),
    ("mateIn2", "Mate in 2"),
    ("mateIn3", "Mate in 3+"),
    ("backRankMate", "Back Rank Mate"),
    ("smotheredMate", "Smothered Mate"),
    ("hangingPiece", "Hanging Piece"),
    ("trappedPiece", "Trapped Piece"),
    ("deflection", "Deflection"),
    ("decoy", "Decoy"),
    ("overloading", "Overloading"),
    ("interference", "Interference"),
    ("sacrifice", "Sacrifice"),
    ("clearance", "Clearance"),
    ("quietMove", "Quiet Move"),
    ("xRayAttack", "X-Ray Attack"),
    ("zugzwang", "Zugzwang"),
    ("promotion", "Pawn Promotion"),
    ("underPromotion", "Underpromotion"),
    ("castling", "Castling"),
    ("enPassant", "En Passant"),
    ("exposedKing", "Exposed King"),
    ("kingsideAttack", "Kingside Attack"),
    ("queensideAttack", "Queenside Attack"),
];

// ── Index of the puzzle file ───────────────────────────────────────

/// The index of the first entry of `v` at or after `i` with tag `t`, or -1.
pub open spec fn tag_from(v: Seq<(String, Vec<u64>)>, t: Seq<char>, i: int) -> int
    decreases v.len() - i,
{
    if i < 0 || i >= v.len() {
        -1
    } else if v[i].0@ == t {
        i
    } else {
        tag_from(v, t, i + 1)
    }
}

/// The offsets recorded for theme `t` in the entries `v` (in the first entry
/// with that tag), none when no entry has it.
pub open spec fn offsets_in(v: Seq<(String, Vec<u64>)>, t: Seq<char>) -> Seq<u64> {
    let j = tag_from(v, t, 0);
    if j >= 0 {
        v[j].1@
    } else {
        seq![]
    }
}

proof fn lemma_tag_from(v: Seq<(String, Vec<u64>)>, t: Seq<char>, i: int)
    requires
        0 <= i,
    ensures
        tag_from(v, t, i) == -1 || (i <= tag_from(v, t, i) < v.len() && v[tag_from(v, t, i)].0@ == t),
        forall|k: int| i <= k < v.len() && (tag_from(v, t, i) == -1 || k < tag_from(v, t, i)) ==> v[k].0@ != t,
    decreases v.len() - i,
{
    if i < v.len() && v[i].0@ != t {
        lemma_tag_from(v, t, i + 1);
    }
}

/// Entry lists with the same tags in the same places find tags alike.
proof fn lemma_same_tags(a: Seq<(String, Vec<u64>)>, b: Seq<(String, Vec<u64>)>, t: Seq<char>, i: int)
    requires
        a.len() == b.len(),
        forall|k: int| 0 <= k < a.len() ==> #[trigger] a[k].0@ == b[k].0@,
    ensures
        tag_from(a, t, i) == tag_from(b, t, i),
    decreases a.len() - i,
{
    if 0 <= i < a.len() {
        assert(a[i].0@ == b[i].0@);
        lemma_same_tags(a, b, t, i + 1);
    }
}

/// A tag not in `v` is found, after one more entry, only in that entry.
proof fn lemma_tag_push(v: Seq<(String, Vec<u64>)>, x: (String, Vec<u64>), t: Seq<char>, i: int)
    requires
        0 <= i <= v.len(),
    ensures
        tag_from(v.push(x), t, i) == if tag_from(v, t, i) >= 0 {
            tag_from(v, t, i)
        } else if x.0@ == t {
            v.len() as int
        } else {
            -1
        },
    decreases v.len() - i,
{
    if i < v.len() {
        assert(v.push(x)[i] == v[i]);
        if v[i].0@ != t {
            lemma_tag_push(v, x, t, i + 1);
        }
    } else {
        assert(v.push(x)[v.len() as int] == x);
        assert(tag_from(v.push(x), t, i + 1) == -1);
    }
}

/// Whether two strings hold the same characters.
fn same_text(a: &str, b: &str) -> (r: bool)
    ensures
        r == (a@ == b@),
{
    let x = chars_of(a);
    let y = chars_of(b);
    if x.len() != y.len() {
        return false;
    }
    let mut i: usize = 0;
    while i < x.len()
        invariant
            i <= x.len() == y.len(),
            x@ == a@,
            y@ == b@,
            forall|k: int| 0 <= k < i ==> x@[k] == y@[k],
        decreases x.len() - i,
    {
        if x[i] != y[i] {
            assert(a@[i as int] != b@[i as int]);
            return false;
        }
        i += 1;
    }
    assert(x@ =~= y@);
    true
}

/// How many of `ws` are `tag`.
pub open spec fn occurrences(ws: Seq<Seq<char>>, tag: Seq<char>) -> nat
    decreases ws.len(),
{
    if ws.len() == 0 {
        0
    } else {
        occurrences(ws.drop_last(), tag) + if ws.last() == tag {
            1nat
        } else {
            0
        }
    }
}

/// The themes a line of the puzzle file names: the words of its eighth field,
/// once white space at the end of the line is dropped.
pub open spec fn line_themes(line: Seq<char>) -> Seq<Seq<char>> {
    let f = csv_fields(trimmed_end(line));
    if f.len() > 7 {
        words(f[7])
    } else {
        seq![]
    }
}

/// The byte offsets of the lines of the puzzle file, by theme, with the
/// number of lines seen and the counts of the practice themes.
pub struct PuzzleIndex {
    pub theme_offsets: Vec<(String, Vec<u64>)>,
    pub theme_counts: Vec<(String, String, usize)>,
    pub total: usize,
}

/// The practice themes with the number of lines indexed under each.
pub open spec fn counts_of(v: Seq<(String, Vec<u64>)>) -> Seq<(Seq<char>, Seq<char>, usize)> {
    Seq::new(
        27,
        |i: int|
            (
                TACTIC_THEMES[i].0@,
                TACTIC_THEMES[i].1@,
                offsets_in(v, TACTIC_THEMES[i].0@).len() as usize,
            ),
    )
}

pub open spec fn counts_view(v: Seq<(String, String, usize)>) -> Seq<(Seq<char>, Seq<char>, usize)> {
    v.map_values(|c: (String, String, usize)| (c.0@, c.1@, c.2))
}

/// Appends `offset` to the entry of `tag` in `v`, making one when none exists.
fn add_offset(v: &mut Vec<(String, Vec<u64>)>, tag: &str, offset: u64)
    ensures
        forall|t: Seq<char>|
            #[trigger] offsets_in(final(v)@, t) == if t == tag@ {
                offsets_in(old(v)@, t).push(offset)
            } else {
                offsets_in(old(v)@, t)
            },
{
    let mut i: usize = 0;
    proof {
        lemma_tag_from(v@, tag@, 0);
    }
    while i < v.len()
        invariant
            i <= v.len(),
            v@ == old(v)@,
            tag_from(v@, tag@, i as int) == tag_from(v@, tag@, 0),
            forall|k: int| 0 <= k < i ==> v@[k].0@ != tag@,
        decreases v.len() - i,
    {
        if same_text(v[i].0.as_str(), tag) {
            let ghost before = v@;
            let mut e = v.remove(i);
            e.1.push(offset);
            v.insert(i, e);
            assert(v@ =~= before.update(i as int, e));
            assert forall|t: Seq<char>|
                #[trigger] offsets_in(v@, t) == if t == tag@ {
                    offsets_in(before, t).push(offset)
                } else {
                    offsets_in(before, t)
                } by {
                lemma_same_tags(before, v@, t, 0);
                lemma_tag_from(before, t, 0);
            }
            return ;
        }
        i += 1;
    }
    let ghost before = v@;
    let mut offs: Vec<u64> = Vec::new();
    offs.push(offset);
    let e = (tag.to_owned(), offs);
    v.push(e);
    assert forall|t: Seq<char>|
        #[trigger] offsets_in(v@, t) == if t == tag@ {
            offsets_in(before, t).push(offset)
        } else {
            offsets_in(before, t)
        } by {
        lemma_tag_push(before, e, t, 0);
        lemma_tag_from(before, t, 0);
        if t == tag@ {
            assert(offs@ =~= seq![].push(offset));
        }
    }
}

/// `n` copies of `x`.
pub open spec fn repeat(x: u64, n: nat) -> Seq<u64> {
    Seq::new(n, |_i: int| x)
}

impl PuzzleIndex {
    /// An index of no lines.
    pub fn new() -> (ix: Self)
        ensures
            forall|t: Seq<char>| #[trigger] offsets_in(ix.theme_offsets@, t) == Seq::<u64>::empty(),
            ix.theme_counts@.len() == 0,
            ix.total == 0,
    {
        PuzzleIndex { theme_offsets: Vec::new(), theme_counts: Vec::new(), total: 0 }
    }

    /// Indexes the line starting at byte `offset` of the file: the offset is
    /// recorded under each theme the line names, once per mention.
    pub fn add_line(&mut self, line: &str, offset: u64)
        requires
            old(self).total < usize::MAX,
        ensures
            forall|t: Seq<char>|
                #[trigger] offsets_in(final(self).theme_offsets@, t) == offsets_in(
                    old(self).theme_offsets@,
                    t,
                ) + repeat(offset, occurrences(line_themes(line@), t)),
            final(self).total == old(self).total + 1,
            final(self).theme_counts@ == old(self).theme_counts@,
    {
        let trimmed = trim_end(line);
        let ws: Vec<String> = match nth_csv_field(trimmed, 7) {
            Some(f) => words_of(f),
            None => Vec::new(),
        };
        let ghost themes = line_themes(line@);
        assert(ws@.map_values(|w: String| w@) =~= themes);
        let ghost start = self.theme_offsets@;
        let mut k: usize = 0;
        while k < ws.len()
            invariant
                k <= ws.len(),
                ws@.map_values(|w: String| w@) == themes,
                self.total == old(self).total,
                self.total < usize::MAX,
                self.theme_counts@ == old(self).theme_counts@,
                forall|t: Seq<char>|
                    #[trigger] offsets_in(self.theme_offsets@, t) == offsets_in(start, t) + repeat(
                        offset,
                        occurrences(themes.take(k as int), t),
                    ),
            decreases ws.len() - k,
        {
            let ghost before = self.theme_offsets@;
            add_offset(&mut self.theme_offsets, ws[k].as_str(), offset);
            assert(themes[k as int] == ws@[k as int]@);
            assert forall|t: Seq<char>|
                #[trigger] offsets_in(self.theme_offsets@, t) == offsets_in(start, t) + repeat(
                    offset,
                    occurrences(themes.take(k + 1), t),
                ) by {
                assert(themes.take(k + 1).drop_last() =~= themes.take(k as int));
                if t == themes[k as int] {
                    assert(repeat(offset, occurrences(themes.take(k + 1), t)) =~= repeat(
                        offset,
                        occurrences(themes.take(k as int), t),
                    ).push(offset));
                } else {
                    assert(repeat(offset, occurrences(themes.take(k + 1), t)) =~= repeat(
                        offset,
                        occurrences(themes.take(k as int), t),
                    ));
                }
            }
            k += 1;
        }
        assert(themes.take(k as int) =~= themes);
        self.total = self.total + 1;
    }

    /// Counts the lines of each practice theme.
    pub fn finish(&mut self)
        ensures
            counts_view(final(self).theme_counts@) == counts_of(old(self).theme_offsets@),
            final(self).theme_offsets@ == old(self).theme_offsets@,
            final(self).total == old(self).total,
    {
        let mut counts: Vec<(String, String, usize)> = Vec::new();
        let mut i: usize = 0;
        while i < 27
            invariant
                i <= 27,
                counts_view(counts@) == counts_of(self.theme_offsets@).take(i as int),
            decreases 27 - i,
        {
            let (tag, name) = TACTIC_THEMES[i];
            let n = self.offsets(tag).len();
            let ghost before = counts@;
            counts.push((tag.to_owned(), name.to_owned(), n));
            assert(tag@ == TACTIC_THEMES[i as int].0@ && name@ == TACTIC_THEMES[i as int].1@);
            assert(counts_view(counts@) =~= counts_view(before).push((tag@, name@, n)));
            assert(counts_view(counts@) =~= counts_of(self.theme_offsets@).take(i + 1));
            i += 1;
        }
        assert(counts_of(self.theme_offsets@).take(27) =~= counts_of(self.theme_offsets@));
        self.theme_counts = counts;
    }

    /// The byte offsets of the lines under theme `theme`, in file order.
    pub fn offsets(&self, theme: &str) -> (r: Vec<u64>)
        ensures
            r@ == offsets_in(self.theme_offsets@, theme@),
    {
        let mut i: usize = 0;
        proof {
            lemma_tag_from(self.theme_offsets@, theme@, 0);
        }
        while i < self.theme_offsets.len()
            invariant
                i <= self.theme_offsets.len(),
                tag_from(self.theme_offsets@, theme@, i as int) == tag_from(
                    self.theme_offsets@,
                    theme@,
                    0,
                ),
            decreases self.theme_offsets.len() - i,
        {
            if same_text(self.theme_offsets[i].0.as_str(), theme) {
                let r = self.theme_offsets[i].1.clone();
                assert(r@ =~= self.theme_offsets@[i as int].1@);
                return r;
            }
            i += 1;
        }
        Vec::new()
    }
}

// ── Loading a batch ────────────────────────────────────────────────

/// Whether a puzzle's rating is within the cap, if there is one.
pub open spec fn within(p: PuzzleV, max_rating: Option<u16>) -> bool {
    match max_rating {
        Some(m) => p.rating <= m,
        None => true,
    }
}

pub open spec fn puzzles_view(v: Seq<Puzzle>) -> Seq<PuzzleV> {
    v.map_values(|p: Puzzle| p@)
}

/// A batch, as the puzzles it keeps and how many it skipped, after `line` is
/// offered: a puzzle within the cap is skipped while fewer than `skip` were, and
/// kept after that; any other line changes nothing.
pub open spec fn offer_step(
    b: (Seq<PuzzleV>, nat),
    line: Seq<char>,
    max_rating: Option<u16>,
    skip: usize,
) -> (Seq<PuzzleV>, nat) {
    match puzzle_of_line(trimmed_end(line)) {
        Some(p) => if within(p, max_rating) {
            if b.1 < skip {
                (b.0, b.1 + 1)
            } else {
                (b.0.push(p), b.1)
            }
        } else {
            b
        },
        None => b,
    }
}

/// A new batch after `lines` are offered to it in order, each only while it
/// holds fewer than `limit` puzzles.
pub open spec fn offered(lines: Seq<Seq<char>>, max_rating: Option<u16>, limit: usize, skip: usize) -> (
    Seq<PuzzleV>,
    nat,
)
    decreases lines.len(),
{
    if lines.len() == 0 {
        (Seq::empty(), 0)
    } else {
        let b = offered(lines.drop_last(), max_rating, limit, skip);
        if b.0.len() >= limit {
            b
        } else {
            offer_step(b, lines.last(), max_rating, skip)
        }
    }
}

/// The puzzles that `lines` hold, in order, of those rated within the cap.
pub open spec fn puzzles_within(lines: Seq<Seq<char>>, max_rating: Option<u16>) -> Seq<PuzzleV>
    decreases lines.len(),
{
    if lines.len() == 0 {
        Seq::empty()
    } else {
        let ps = puzzles_within(lines.drop_last(), max_rating);
        match puzzle_of_line(trimmed_end(lines.last())) {
            Some(p) => if within(p, max_rating) {
                ps.push(p)
            } else {
                ps
            },
            None => ps,
        }
    }
}

/// The part of `all` past its first `skip`, at most `limit` long.
pub open spec fn window(all: Seq<PuzzleV>, skip: int, limit: int) -> Seq<PuzzleV> {
    if all.len() <= skip {
        Seq::empty()
    } else if skip + limit < all.len() {
        all.subrange(skip, skip + limit)
    } else {
        all.subrange(skip, all.len() as int)
    }
}

/// The lines of a file, each with its byte offset, that name theme `t`, in
/// file order, once per mention: what the index records for `t`, offset by
/// offset, when the lines are added to it in order.
pub open spec fn theme_entries(entries: Seq<(Seq<char>, u64)>, t: Seq<char>) -> Seq<
    (Seq<char>, u64),
>
    decreases entries.len(),
{
    if entries.len() == 0 {
        Seq::empty()
    } else {
        theme_entries(entries.drop_last(), t) + Seq::new(
            occurrences(line_themes(entries.last().0), t),
            |_i: int| entries.last(),
        )
    }
}

/// Offering lines in order to a new batch keeps, of the puzzles they hold
/// rated within the cap, those past the first `skip`, at most `limit` of them,
/// in order.
pub proof fn law_offered_lines(
    lines: Seq<Seq<char>>,
    max_rating: Option<u16>,
    limit: usize,
    skip: usize,
)
    ensures
        offered(lines, max_rating, limit, skip).0 == window(
            puzzles_within(lines, max_rating),
            skip as int,
            limit as int,
        ),
        limit > 0 ==> offered(lines, max_rating, limit, skip).1 == if puzzles_within(
            lines,
            max_rating,
        ).len() < skip {
            puzzles_within(lines, max_rating).len()
        } else {
            skip as nat
        },
    decreases lines.len(),
{
    if lines.len() > 0 {
        let rest = lines.drop_last();
        law_offered_lines(rest, max_rating, limit, skip);
        let all0 = puzzles_within(rest, max_rating);
        let all = puzzles_within(lines, max_rating);
        let b = offered(rest, max_rating, limit, skip);
        if b.0.len() >= limit {
            if limit > 0 {
                assert(all0.len() > skip + limit - 1);
                assert(all.subrange(skip as int, skip + limit) =~= all0.subrange(
                    skip as int,
                    skip + limit,
                ));
            } else {
                assert(window(all, skip as int, 0) =~= Seq::empty());
                assert(window(all0, skip as int, 0) =~= Seq::empty());
            }
        } else {
            match puzzle_of_line(trimmed_end(lines.last())) {
                Some(p) => if within(p, max_rating) {
                    assert(all == all0.push(p));
                    if b.1 < skip {
                    } else {
                        assert(window(all, skip as int, limit as int) =~= window(
                            all0,
                            skip as int,
                            limit as int,
                        ).push(p));
                    }
                },
                None => {},
            }
        }
    } else {
        assert(window(Seq::empty(), skip as int, limit as int) =~= Seq::empty());
    }
}

/// Adding the lines of a file in order to a new index, each with its byte
/// offset, records for each theme the offsets of the lines naming it, in file
/// order, once per mention: `states` are the index's entries before each line
/// and after the last, each step as `add_line` leaves it.
pub proof fn law_index_records_theme_entries(
    states: Seq<Seq<(String, Vec<u64>)>>,
    entries: Seq<(Seq<char>, u64)>,
    t: Seq<char>,
)
    requires
        states.len() == entries.len() + 1,
        offsets_in(states[0], t) == Seq::<u64>::empty(),
        forall|k: int|
            0 <= k < entries.len() ==> #[trigger] offsets_in(states[k + 1], t) == offsets_in(
                states[k],
                t,
            ) + repeat(entries[k].1, occurrences(line_themes(entries[k].0), t)),
    ensures
        offsets_in(states[entries.len() as int], t) == theme_entries(entries, t).map_values(
            |e: (Seq<char>, u64)| e.1,
        ),
    decreases entries.len(),
{
    if entries.len() > 0 {
        let n = entries.len() - 1;
        let rest = entries.drop_last();
        assert forall|k: int| 0 <= k < rest.len() implies #[trigger] offsets_in(
            states.drop_last()[k + 1],
            t,
        ) == offsets_in(states.drop_last()[k], t) + repeat(
            rest[k].1,
            occurrences(line_themes(rest[k].0), t),
        ) by {
            assert(offsets_in(states[k + 1], t) == offsets_in(states[k], t) + repeat(
                entries[k].1,
                occurrences(line_themes(entries[k].0), t),
            ));
        }
        law_index_records_theme_entries(states.drop_last(), rest, t);
        assert(offsets_in(states[n + 1], t) == offsets_in(states[n], t) + repeat(
            entries[n].1,
            occurrences(line_themes(entries[n].0), t),
        ));
        let e = entries.last();
        assert(Seq::new(occurrences(line_themes(e.0), t), |_i: int| e).map_values(
            |e: (Seq<char>, u64)| e.1,
        ) =~= repeat(e.1, occurrences(line_themes(e.0), t)));
        assert(theme_entries(entries, t).map_values(|e: (Seq<char>, u64)| e.1) =~= theme_entries(
            rest,
            t,
        ).map_values(|e: (Seq<char>, u64)| e.1) + Seq::new(
            occurrences(line_themes(e.0), t),
            |_i: int| e,
        ).map_values(|e: (Seq<char>, u64)| e.1));
    } else {
        assert(theme_entries(entries, t).map_values(|e: (Seq<char>, u64)| e.1) =~= Seq::empty());
    }
}

/// Whether line `l` names theme `t`.
pub open spec fn names_theme(l: Seq<char>, t: Seq<char>) -> bool {
    occurrences(line_themes(l), t) > 0
}

/// Where no line names a theme twice, the lines the index records for it are
/// the lines naming it, in file order; loading a theme therefore gives, of the
/// puzzles on those lines rated within the cap, those past the first `skip`, at
/// most `limit` of them, in file order (none for a theme no line names).
pub proof fn law_theme_loading(
    entries: Seq<(Seq<char>, u64)>,
    t: Seq<char>,
    max_rating: Option<u16>,
    limit: usize,
    skip: usize,
)
    requires
        forall|i: int| 0 <= i < entries.len() ==> occurrences(line_themes(#[trigger] entries[i].0), t) <= 1,
    ensures
        theme_entries(entries, t) == entries.filter(|e: (Seq<char>, u64)| names_theme(e.0, t)),
        offered(
            theme_entries(entries, t).map_values(|e: (Seq<char>, u64)| e.0),
            max_rating,
            limit,
            skip,
        ).0 == window(
            puzzles_within(
                entries.filter(|e: (Seq<char>, u64)| names_theme(e.0, t)).map_values(
                    |e: (Seq<char>, u64)| e.0,
                ),
                max_rating,
            ),
            skip as int,
            limit as int,
        ),
    decreases entries.len(),
{
    reveal(Seq::filter);
    let pred = |e: (Seq<char>, u64)| names_theme(e.0, t);
    if entries.len() > 0 {
        let rest = entries.drop_last();
        assert forall|i: int| 0 <= i < rest.len() implies occurrences(
            line_themes(#[trigger] rest[i].0),
            t,
        ) <= 1 by {
            assert(rest[i] == entries[i]);
        }
        law_theme_loading(rest, t, max_rating, limit, skip);
        let e = entries.last();
        assert(occurrences(line_themes(entries[entries.len() - 1].0), t) <= 1);
        if names_theme(e.0, t) {
            assert(Seq::new(occurrences(line_themes(e.0), t), |_i: int| e) =~= seq![e]);
            assert(theme_entries(entries, t) =~= theme_entries(rest, t).push(e));
        } else {
            assert(theme_entries(entries, t) =~= theme_entries(rest, t));
        }
    } else {
        assert(theme_entries(entries, t) =~= entries.filter(pred));
    }
    law_offered_lines(
        theme_entries(entries, t).map_values(|e: (Seq<char>, u64)| e.0),
        max_rating,
        limit,
        skip,
    );
}

/// The puzzles gathered from the lines of a theme, in file order: those whose
/// rating is within the cap, past the first `skip` of them, up to `limit`.
pub struct PuzzleBatch {
    pub puzzles: Vec<Puzzle>,
    pub max_rating: Option<u16>,
    pub limit: usize,
    pub skip: usize,
    pub skipped: usize,
}

impl PuzzleBatch {
    pub fn new(max_rating: Option<u16>, limit: usize, skip: usize) -> (b: Self)
        ensures
            b.puzzles@.len() == 0,
            b.max_rating == max_rating,
            b.limit == limit,
            b.skip == skip,
            b.skipped == 0,
    {
        PuzzleBatch { puzzles: Vec::new(), max_rating, limit, skip, skipped: 0 }
    }

    /// Whether the batch holds `limit` puzzles: no more lines are wanted.
    pub fn is_full(&self) -> (r: bool)
        ensures
            r == (self.puzzles.len() >= self.limit),
    {
        self.puzzles.len() >= self.limit
    }

    /// Takes the next line of the theme (white space at its end is dropped):
    /// a puzzle within the cap is skipped while fewer than `skip` were, and
    /// kept after that; any other line changes nothing.
    pub fn offer(&mut self, line: &str)
        ensures
            final(self).max_rating == old(self).max_rating,
            final(self).limit == old(self).limit,
            final(self).skip == old(self).skip,
            (puzzles_view(final(self).puzzles@), final(self).skipped as nat) == offer_step(
                (puzzles_view(old(self).puzzles@), old(self).skipped as nat),
                line@,
                old(self).max_rating,
                old(self).skip,
            ),
    {
        let t = trim_end(line);
        match Puzzle::from_csv_line(t) {
            Some(p) => {
                let ok = match self.max_rating {
                    Some(m) => p.rating <= m,
                    None => true,
                };
                if ok {
                    if self.skipped < self.skip {
                        self.skipped = self.skipped + 1;
                    } else {
                        let ghost before = self.puzzles@;
                        let ghost pv = p@;
                        self.puzzles.push(p);
                        assert(puzzles_view(self.puzzles@) =~= puzzles_view(before).push(pv));
                    }
                }
            },
            None => {},
        }
    }
}

} // verus!
