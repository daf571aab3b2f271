//! The piece editor: custom piece designs (a 7 by 3 grid of characters per
//! piece type), their text file format, and the drawing canvas.
use vstd::prelude::*;

use std::collections::HashMap;

use crate::board::{BISHOP, KING, KNIGHT, PAWN, QUEEN, ROOK};
use crate::text::{
    append_str, decimal_of, joined, lemma_decimal_of, lemma_joined_append, lemma_lines_of_joined,
    lemma_parse_decimal, lemma_trimmed_first, lines, lines_of, parse_dec, parse_unsigned,
    plain_line, push_char, push_decimal, trim, trimmed,
};

verus! {

broadcast use vstd::std_specs::hash::group_hash_axioms;

/// The 7 by 3 grid of one piece design; a space is an empty cell.
pub type PieceGrid = [[char; 7]; 3];

pub const EMPTY_ROW: [char; 7] = [' ', ' ', ' ', ' ', ' ', ' ', ' '];

pub const EMPTY_GRID: PieceGrid = [EMPTY_ROW, EMPTY_ROW, EMPTY_ROW];

/// Characters the user can pick from to draw with.
pub const SHAPE_PALETTE: [char; 212] = [
    // Block Elements
    '█', '▀', '▁', '▂', '▃', '▄', '▅', '▆', '▇',
    '▉', '▊', '▋', '▌', '▍', '▎', '▏', '▐',
    '░', '▒', '▓', '▔', '▕',
    '▖', '▗', '▘', '▙', '▚', '▛', '▜', '▝', '▞', '▟',
    // Box Drawing - Single
    '─', '│', '┌', '┐', '└', '┘', '├', '┤', '┬', '┴', '┼',
    // Box Drawing - Double
    '═', '║', '╔', '╗', '╚', '╝', '╠', '╣', '╦', '╩', '╬',
    // Box Drawing - Rounded
    '╭', '╮', '╯', '╰',
    // Box Drawing - Heavy
    '━', '┃', '┏', '┓', '┗', '┛', '┣', '┫', '┳', '┻', '╋',
    // Box Drawing - Dashes
    '┄', '┅', '┆', '┇', '┈', '┉', '┊', '┋', '╌', '╍', '╎', '╏',
    // Diagonals
    '╱', '╲',
    // Geometric Shapes - Squares
    '■', '□', '▢', '▣', '▤', '▥', '▦', '▧', '▨', '▩', '▪', '▫', '▬', '▭', '▮', '▯',
    // Geometric Shapes - Triangles
    '▰', '▱', '▲', '△', '▴', '▵', '▶', '▷', '▸', '▹',
    '▼', '▽', '▾', '▿', '◀', '◁', '◂', '◃',
    // Geometric Shapes - Diamonds & Circles
    '◆', '◇', '◈', '◉', '◊', '○', '◌', '◍', '◎', '●',
    '◐', '◑', '◒', '◓', '◔', '◕', '◖', '◗',
    '◘', '◙', '◚', '◛', '◜', '◝', '◞', '◟', '◠', '◡',
    // Geometric Shapes - Corner triangles
    '◢', '◣', '◤', '◥',
    // Geometric Shapes - More
    '◦', '◧', '◨', '◩', '◪', '◫', '◬', '◭', '◮', '◯',
    '◰', '◱', '◲', '◳', '◴', '◵', '◶', '◷',
    '◸', '◹', '◺', '◻', '◼', '◽', '◾', '◿',
    // Stars & Crosses
    '★', '☆', '✦', '✧', '✚', '✛', '✜', '✝',
    '⊕', '⊖', '⊗', '⊘', '⊙', '⊞', '⊟', '⊠', '⊡',
    // Chess pieces (for reference/mixing in)
    '♔', '♕', '♖', '♗', '♘', '♙', '♚', '♛', '♜', '♝', '♞', '♟',
    // Misc useful
    '+', '*', '^', '~', '·', '•', '∘', '∙',
];

/// The piece types in the order the editor lists them, with their names.
pub const PIECE_TYPES: [(usize, &'static str); 6] = [
    (KING, "King"),
    (QUEEN, "Queen"),
    (ROOK, "Rook"),
    (BISHOP, "Bishop"),
    (KNIGHT, "Knight"),
    (PAWN, "Pawn"),
];

/// A grid as its three rows of characters.
pub open spec fn grid_view(g: PieceGrid) -> Seq<Seq<char>> {
    seq![g[0]@, g[1]@, g[2]@]
}

/// The custom piece designs, by piece type.
pub struct CustomPieces {
    pub pieces: HashMap<usize, PieceGrid>,
}

impl CustomPieces {
    /// The designs, each as its rows of characters.
    pub open spec fn designs(&self) -> Map<usize, Seq<Seq<char>>> {
        self.pieces@.map_values(|g: PieceGrid| grid_view(g))
    }

    /// No designs.
    pub fn new() -> (cp: Self)
        ensures
            cp.pieces@ == Map::<usize, PieceGrid>::empty(),
    {
        CustomPieces { pieces: HashMap::new() }
    }

    pub fn get(&self, piece_type: usize) -> (r: Option<&PieceGrid>)
        ensures
            match r {
                Some(g) => self.pieces@.contains_key(piece_type) && *g == self.pieces@[piece_type],
                None => !self.pieces@.contains_key(piece_type),
            },
    {
        self.pieces.get(&piece_type)
    }

    pub fn set(&mut self, piece_type: usize, grid: PieceGrid)
        ensures
            final(self).pieces@ == old(self).pieces@.insert(piece_type, grid),
    {
        self.pieces.insert(piece_type, grid);
    }
}

// ── The save file ──────────────────────────────────────────────────

/// One design as the save file holds it: a comment with the piece's name, the
/// piece type's number, the three rows, and a blank line.
pub open spec fn design_text(name: Seq<char>, pt: usize, rows: Seq<Seq<char>>) -> Seq<char> {
    "# "@ + name + seq!['\n'] + decimal_of(pt as nat) + seq!['\n'] + rows[0] + seq!['\n'] + rows[1]
        + seq!['\n'] + rows[2] + seq!['\n'] + seq!['\n']
}

/// The save file's text for the designs of the first `n` piece types, in the
/// editor's order; a type without a design writes nothing.
pub open spec fn designs_text(d: Map<usize, Seq<Seq<char>>>, n: int) -> Seq<char>
    decreases n,
{
    if n <= 0 {
        seq![]
    } else {
        let pt = PIECE_TYPES[n - 1].0;
        designs_text(d, n - 1) + if d.contains_key(pt) {
            design_text(PIECE_TYPES[n - 1].1@, pt, d[pt])
        } else {
            seq![]
        }
    }
}

/// A row read from a line: its first seven characters, blanks after its end.
pub open spec fn row_of(line: Seq<char>) -> Seq<char> {
    Seq::new(7, |c: int| if c < line.len() { line[c] } else { ' ' })
}

/// Row `j` of the lines, or a blank row past their end.
pub open spec fn row_or_blank(ls: Seq<Seq<char>>, j: int) -> Seq<char> {
    if 0 <= j < ls.len() {
        row_of(ls[j])
    } else {
        row_of(seq![])
    }
}

/// The designs read from the lines `ls` from line `i` on, added to `d`: blank
/// lines, comment lines (`#` first) and lines that are not a number are passed
/// over; a number is a piece type, and the (up to) three lines after it are
/// its rows; a later design of a type replaces an earlier one.
pub open spec fn load_from(ls: Seq<Seq<char>>, i: int, d: Map<usize, Seq<Seq<char>>>) -> Map<
    usize,
    Seq<Seq<char>>,
>
    decreases ls.len() - i,
{
    if i < 0 || i >= ls.len() {
        d
    } else {
        let t = trimmed(ls[i]);
        if t.len() == 0 || t[0] == '#' {
            load_from(ls, i + 1, d)
        } else {
            match parse_dec(t, usize::MAX as nat) {
                None => load_from(ls, i + 1, d),
                Some(pt) => load_from(
                    ls,
                    if i + 4 <= ls.len() {
                        i + 4
                    } else {
                        ls.len() as int
                    },
                    d.insert(
                        pt as usize,
                        seq![row_or_blank(ls, i + 1), row_or_blank(ls, i + 2), row_or_blank(ls, i + 3)],
                    ),
                ),
            }
        }
    }
}

/// Appends the characters of a row.
fn push_row(out: &mut String, row: &[char; 7])
    ensures
        final(out)@ == old(out)@ + row@,
{
    let mut c: usize = 0;
    while c < 7
        invariant
            c <= 7,
            out@ == old(out)@ + row@.take(c as int),
        decreases 7 - c,
    {
        push_char(out, row[c]);
        assert(row@.take(c + 1) =~= row@.take(c as int).push(row@[c as int]));
        c += 1;
    }
    assert(row@.take(7) =~= row@);
}

/// The character at `c` of a line, a blank past its end.
fn char_or_blank(cs: &Vec<char>, c: usize) -> (ch: char)
    ensures
        ch == if c < cs.len() {
            cs@[c as int]
        } else {
            ' '
        },
{
    if c < cs.len() {
        cs[c]
    } else {
        ' '
    }
}

/// A row read from a line.
fn row_from(line: &String) -> (row: [char; 7])
    ensures
        row@ == row_of(line@),
{
    let cs = crate::text::chars_of(line.as_str());
    let row = [
        char_or_blank(&cs, 0),
        char_or_blank(&cs, 1),
        char_or_blank(&cs, 2),
        char_or_blank(&cs, 3),
        char_or_blank(&cs, 4),
        char_or_blank(&cs, 5),
        char_or_blank(&cs, 6),
    ];
    assert(row@ =~= row_of(line@));
    row
}

impl CustomPieces {
    /// The save file's text.
    pub fn to_text(&self) -> (text: String)
        ensures
            text@ == designs_text(self.designs(), 6),
    {
        let mut out = String::new();
        let mut i: usize = 0;
        while i < 6
            invariant
                i <= 6,
                out@ == designs_text(self.designs(), i as int),
            decreases 6 - i,
        {
            let (pt, name) = PIECE_TYPES[i];
            match self.pieces.get(&pt) {
                Some(g) => {
                    let ghost before = out@;
                    append_str(&mut out, "# ");
                    append_str(&mut out, name);
                    push_char(&mut out, '\n');
                    push_decimal(&mut out, pt as u64);
                    push_char(&mut out, '\n');
                    push_row(&mut out, &g[0]);
                    push_char(&mut out, '\n');
                    push_row(&mut out, &g[1]);
                    push_char(&mut out, '\n');
                    push_row(&mut out, &g[2]);
                    push_char(&mut out, '\n');
                    push_char(&mut out, '\n');
                    assert(self.designs()[pt] == grid_view(*g));
                    assert(out@ =~= before + design_text(name@, pt, self.designs()[pt]));
                },
                None => {},
            }
            i += 1;
        }
        out
    }

    /// The designs a save file's text holds.
    pub fn from_text(content: &str) -> (cp: Self)
        ensures
            cp.designs() == load_from(lines_of(content@), 0, Map::empty()),
    {
        let ls = lines(content);
        let ghost lv = lines_of(content@);
        let mut cp = CustomPieces::new();
        let mut i: usize = 0;
        assert(cp.designs() =~= Map::empty());
        while i < ls.len()
            invariant
                i <= ls.len(),
                ls@.map_values(|l: String| l@) == lv,
                load_from(lv, i as int, cp.designs()) == load_from(lv, 0, Map::empty()),
            decreases ls.len() - i,
        {
            assert(lv[i as int] == ls@[i as int]@);
            let t = trim(ls[i].as_str());
            let tc = crate::text::chars_of(t);
            if tc.len() == 0 || tc[0] == '#' {
                i += 1;
            } else {
                match parse_unsigned(t, usize::MAX as u64) {
                    None => {
                        i += 1;
                    },
                    Some(v) => {
                        let pt = v as usize;
                        let r0 = if ls.len() - i > 1 {
                            row_from(&ls[i + 1])
                        } else {
                            EMPTY_ROW
                        };
                        let r1 = if ls.len() - i > 2 {
                            row_from(&ls[i + 2])
                        } else {
                            EMPTY_ROW
                        };
                        let r2 = if ls.len() - i > 3 {
                            row_from(&ls[i + 3])
                        } else {
                            EMPTY_ROW
                        };
                        assert(EMPTY_ROW@ =~= row_of(seq![]));
                        let grid: PieceGrid = [r0, r1, r2];
                        let ghost before = cp.designs();
                        cp.set(pt, grid);
                        assert(grid_view(grid) =~= seq![
                            row_or_blank(lv, i + 1),
                            row_or_blank(lv, i + 2),
                            row_or_blank(lv, i + 3),
                        ]);
                        assert(cp.designs() =~= before.insert(pt, grid_view(grid)));
                        if ls.len() - i < 4 {
                            i = ls.len();
                        } else {
                            i = i + 4;
                        }
                    },
                }
            }
        }
        cp
    }
}

// ── The save file keeps the designs ────────────────────────────────

/// The lines of one design in the save file.
pub open spec fn design_lines(name: Seq<char>, pt: usize, rows: Seq<Seq<char>>) -> Seq<Seq<char>> {
    seq!["# "@ + name, decimal_of(pt as nat), rows[0], rows[1], rows[2], seq![]]
}

/// The lines of the save file for the designs of the first `n` piece types.
pub open spec fn designs_lines(d: Map<usize, Seq<Seq<char>>>, n: int) -> Seq<Seq<char>>
    decreases n,
{
    if n <= 0 {
        seq![]
    } else {
        let pt = PIECE_TYPES[n - 1].0;
        designs_lines(d, n - 1) + if d.contains_key(pt) {
            design_lines(PIECE_TYPES[n - 1].1@, pt, d[pt])
        } else {
            seq![]
        }
    }
}

/// The designs of the first `n` piece types.
pub open spec fn designs_upto(d: Map<usize, Seq<Seq<char>>>, n: int) -> Map<usize, Seq<Seq<char>>>
    decreases n,
{
    if n <= 0 {
        Map::empty()
    } else {
        let pt = PIECE_TYPES[n - 1].0;
        if d.contains_key(pt) {
            designs_upto(d, n - 1).insert(pt, d[pt])
        } else {
            designs_upto(d, n - 1)
        }
    }
}

/// A design the save file can hold: three rows of seven characters, with no
/// line break in a row and no carriage return at a row's end.
pub open spec fn design_ok(g: Seq<Seq<char>>) -> bool {
    &&& g.len() == 3
    &&& forall|k: int| 0 <= k < 3 ==> (#[trigger] g[k]).len() == 7 && plain_line(g[k])
}

/// The piece types the editor lists.
pub open spec fn piece_type_set() -> Set<usize> {
    set![KING, QUEEN, ROOK, BISHOP, KNIGHT, PAWN]
}

proof fn lemma_design_text(name: Seq<char>, pt: usize, rows: Seq<Seq<char>>)
    ensures
        design_text(name, pt, rows) == joined(design_lines(name, pt, rows)),
{
    let ls = design_lines(name, pt, rows);
    assert(joined(ls.subrange(6, 6)) =~= seq![]);
    assert(ls.drop_first() =~= ls.subrange(1, 6));
    assert(ls.subrange(1, 6).drop_first() =~= ls.subrange(2, 6));
    assert(ls.subrange(2, 6).drop_first() =~= ls.subrange(3, 6));
    assert(ls.subrange(3, 6).drop_first() =~= ls.subrange(4, 6));
    assert(ls.subrange(4, 6).drop_first() =~= ls.subrange(5, 6));
    assert(ls.subrange(5, 6).drop_first() =~= ls.subrange(6, 6));
    assert(joined(ls.subrange(5, 6)) =~= seq!['\n']);
    assert(joined(ls.subrange(4, 6)) =~= rows[2] + seq!['\n'] + seq!['\n']);
    assert(joined(ls.subrange(3, 6)) =~= rows[1] + seq!['\n'] + rows[2] + seq!['\n'] + seq!['\n']);
    assert(joined(ls.subrange(2, 6)) =~= rows[0] + seq!['\n'] + rows[1] + seq!['\n'] + rows[2]
        + seq!['\n'] + seq!['\n']);
    assert(joined(ls.subrange(1, 6)) =~= decimal_of(pt as nat) + seq!['\n'] + rows[0] + seq!['\n']
        + rows[1] + seq!['\n'] + rows[2] + seq!['\n'] + seq!['\n']);
    assert(joined(ls) =~= design_text(name, pt, rows));
}

proof fn lemma_designs_text(d: Map<usize, Seq<Seq<char>>>, n: int)
    requires
        0 <= n <= 6,
    ensures
        designs_text(d, n) == joined(designs_lines(d, n)),
    decreases n,
{
    if n == 0 {
        assert(joined(designs_lines(d, 0)) =~= seq![]);
    } else {
        lemma_designs_text(d, n - 1);
        let pt = PIECE_TYPES[n - 1].0;
        let block = if d.contains_key(pt) {
            design_lines(PIECE_TYPES[n - 1].1@, pt, d[pt])
        } else {
            seq![]
        };
        lemma_joined_append(designs_lines(d, n - 1), block);
        if d.contains_key(pt) {
            lemma_design_text(PIECE_TYPES[n - 1].1@, pt, d[pt]);
        } else {
            assert(joined(block) =~= seq![]);
            assert(designs_text(d, n) =~= designs_text(d, n - 1));
        }
    }
}

/// The name line and the number line of a design are plain lines.
proof fn lemma_head_lines_plain(i: int)
    requires
        0 <= i < 6,
    ensures
        plain_line("# "@ + PIECE_TYPES[i].1@),
        plain_line(decimal_of(PIECE_TYPES[i].0 as nat)),
{
    reveal_strlit("# ");
    reveal_strlit("King");
    reveal_strlit("Queen");
    reveal_strlit("Rook");
    reveal_strlit("Bishop");
    reveal_strlit("Knight");
    reveal_strlit("Pawn");
    let d = decimal_of(PIECE_TYPES[i].0 as nat);
    lemma_decimal_of(PIECE_TYPES[i].0 as nat);
    assert forall|k: int| 0 <= k < d.len() implies #[trigger] d[k] != '\n' by {
        assert('0' <= d[k] <= '9');
    }
    assert('0' <= d[d.len() - 1] <= '9');
}

proof fn lemma_lines_plain(d: Map<usize, Seq<Seq<char>>>, n: int)
    requires
        0 <= n <= 6,
        forall|pt: usize| d.contains_key(pt) ==> design_ok(#[trigger] d[pt]),
    ensures
        forall|k: int| 0 <= k < designs_lines(d, n).len() ==> plain_line(#[trigger] designs_lines(d, n)[k]),
    decreases n,
{
    if n > 0 {
        lemma_lines_plain(d, n - 1);
        let pt = PIECE_TYPES[n - 1].0;
        let prev = designs_lines(d, n - 1);
        if d.contains_key(pt) {
            let b = design_lines(PIECE_TYPES[n - 1].1@, pt, d[pt]);
            lemma_head_lines_plain(n - 1);
            assert(design_ok(d[pt]));
            assert(plain_line(d[pt][0]) && plain_line(d[pt][1]) && plain_line(d[pt][2]));
            assert(plain_line(b[5]));
            assert forall|k: int| 0 <= k < designs_lines(d, n).len() implies plain_line(
                #[trigger] designs_lines(d, n)[k],
            ) by {
                if k < prev.len() {
                    assert(designs_lines(d, n)[k] == prev[k]);
                } else {
                    assert(designs_lines(d, n)[k] == b[k - prev.len()]);
                }
            }
        } else {
            assert(designs_lines(d, n) =~= prev);
        }
    }
}

/// The save file's lines for fewer piece types begin the lines for more.
proof fn lemma_lines_prefix(d: Map<usize, Seq<Seq<char>>>, m: int, n: int)
    requires
        0 <= m <= n <= 6,
    ensures
        designs_lines(d, m).len() <= designs_lines(d, n).len(),
        forall|j: int| 0 <= j < designs_lines(d, m).len() ==> #[trigger] designs_lines(d, n)[j]
            == designs_lines(d, m)[j],
    decreases n - m,
{
    if m < n {
        lemma_lines_prefix(d, m, n - 1);
    }
}

/// Loading reads one design's lines into one design.
proof fn lemma_load_block(
    ls: Seq<Seq<char>>,
    i: int,
    d: Map<usize, Seq<Seq<char>>>,
    name: Seq<char>,
    pt: usize,
    rows: Seq<Seq<char>>,
)
    requires
        0 <= i,
        i + 6 <= ls.len(),
        forall|j: int| 0 <= j < 6 ==> #[trigger] ls[i + j] == design_lines(name, pt, rows)[j],
        design_ok(rows),
    ensures
        load_from(ls, i, d) == load_from(ls, i + 6, d.insert(pt, rows)),
{
    reveal_strlit("# ");
    let b = design_lines(name, pt, rows);
    assert(ls[i + 0] == b[0]);
    assert(ls[i + 1] == b[1]);
    assert(ls[i + 2] == b[2]);
    assert(ls[i + 3] == b[3]);
    assert(ls[i + 4] == b[4]);
    assert(ls[i + 5] == b[5]);
    lemma_trimmed_first(ls[i]);
    assert(load_from(ls, i, d) == load_from(ls, i + 1, d));
    lemma_decimal_of(pt as nat);
    lemma_parse_decimal(pt as nat, usize::MAX as nat);
    lemma_trimmed_first(ls[i + 1]);
    assert('0' <= ls[i + 1][0] <= '9');
    assert(row_of(rows[0]) =~= rows[0]);
    assert(row_of(rows[1]) =~= rows[1]);
    assert(row_of(rows[2]) =~= rows[2]);
    let d2 = d.insert(pt, rows);
    assert(seq![row_or_blank(ls, i + 2), row_or_blank(ls, i + 3), row_or_blank(ls, i + 4)] =~= rows);
    assert(load_from(ls, i + 1, d) == load_from(ls, i + 5, d2));
    assert(trimmed(ls[i + 5]) =~= seq![]);
    assert(load_from(ls, i + 5, d2) == load_from(ls, i + 6, d2));
}

/// Loading the save file's lines from the designs of the first `n` types on
/// ends with the designs of all six.
proof fn lemma_load_rest(d: Map<usize, Seq<Seq<char>>>, n: int)
    requires
        0 <= n <= 6,
        forall|pt: usize| d.contains_key(pt) ==> design_ok(#[trigger] d[pt]),
    ensures
        load_from(designs_lines(d, 6), designs_lines(d, n).len() as int, designs_upto(d, n))
            == designs_upto(d, 6),
    decreases 6 - n,
{
    let all = designs_lines(d, 6);
    if n < 6 {
        lemma_load_rest(d, n + 1);
        let pt = PIECE_TYPES[n].0;
        let prev = designs_lines(d, n);
        if d.contains_key(pt) {
            let b = design_lines(PIECE_TYPES[n].1@, pt, d[pt]);
            lemma_lines_prefix(d, n + 1, 6);
            assert forall|j: int| 0 <= j < 6 implies #[trigger] all[prev.len() + j] == b[j] by {
                assert(designs_lines(d, n + 1)[prev.len() + j] == b[j]);
            }
            lemma_load_block(all, prev.len() as int, designs_upto(d, n), PIECE_TYPES[n].1@, pt, d[pt]);
        } else {
            assert(designs_lines(d, n + 1) =~= prev);
        }
    }
}

/// What the save file holds is what loading it reads: the designs of the six
/// piece types come back as they were, when each is three rows of seven
/// characters with no line break and no carriage return at a row's end.
pub proof fn law_designs_persist(d: Map<usize, Seq<Seq<char>>>)
    requires
        forall|pt: usize| d.contains_key(pt) ==> design_ok(#[trigger] d[pt]),
    ensures
        load_from(lines_of(designs_text(d, 6)), 0, Map::empty()) == d.restrict(piece_type_set()),
{
    lemma_designs_text(d, 6);
    lemma_lines_plain(d, 6);
    lemma_lines_of_joined(designs_lines(d, 6));
    lemma_load_rest(d, 0);
    reveal_with_fuel(designs_upto, 7);
    assert(designs_upto(d, 6) =~= d.restrict(piece_type_set()));
}

// ── The drawing canvas ─────────────────────────────────────────────

/// What the canvas screen is doing.
#[derive(Clone, Copy, Debug, PartialEq, Eq, Structural)]
pub enum CanvasMode {
    /// selecting which piece to edit
    PiecePicker,
    /// editing the 7 by 3 grid
    Drawing,
    /// selecting a shape from the palette
    ShapePicker,
}

/// The canvas editor: the piece being drawn (an index into `PIECE_TYPES`),
/// the cursor (row below 3, column below 7), the shape (an index into
/// `SHAPE_PALETTE`) and the grid being edited.
pub struct CanvasState {
    pub selected_piece: usize,
    pub cursor_row: usize,
    pub cursor_col: usize,
    pub current_shape: usize,
    pub grid: PieceGrid,
    pub mode: CanvasMode,
}

/// The editor as plain values: the grid as its rows.
pub struct CanvasV {
    pub selected_piece: usize,
    pub cursor_row: usize,
    pub cursor_col: usize,
    pub current_shape: usize,
    pub grid: Seq<Seq<char>>,
    pub mode: CanvasMode,
}

impl View for CanvasState {
    type V = CanvasV;

    open spec fn view(&self) -> CanvasV {
        CanvasV {
            selected_piece: self.selected_piece,
            cursor_row: self.cursor_row,
            cursor_col: self.cursor_col,
            current_shape: self.current_shape,
            grid: grid_view(self.grid),
            mode: self.mode,
        }
    }
}

/// The editor's indices lie in their ranges: the piece in `PIECE_TYPES`, the
/// cursor on the 3 by 7 grid, the shape in `SHAPE_PALETTE`.
pub open spec fn canvas_ok(v: CanvasV) -> bool {
    &&& v.selected_piece < 6
    &&& v.cursor_row < 3
    &&& v.cursor_col < 7
    &&& v.current_shape < 212
}

/// The editor as `new` makes it.
pub open spec fn fresh_canvas() -> CanvasV {
    CanvasV {
        selected_piece: 0,
        cursor_row: 1,
        cursor_col: 3,
        current_shape: 0,
        grid: grid_view(EMPTY_GRID),
        mode: CanvasMode::PiecePicker,
    }
}

/// `row` with column `c` set to `ch`.
fn with_cell(row: [char; 7], c: usize, ch: char) -> (r: [char; 7])
    requires
        c < 7,
    ensures
        r@ == row@.update(c as int, ch),
{
    let r = [
        if c == 0 { ch } else { row[0] },
        if c == 1 { ch } else { row[1] },
        if c == 2 { ch } else { row[2] },
        if c == 3 { ch } else { row[3] },
        if c == 4 { ch } else { row[4] },
        if c == 5 { ch } else { row[5] },
        if c == 6 { ch } else { row[6] },
    ];
    assert(r@ =~= row@.update(c as int, ch));
    r
}

/// `g` with the cell at row `r`, column `c` set to `ch`.
pub open spec fn grid_with(g: Seq<Seq<char>>, r: int, c: int, ch: char) -> Seq<Seq<char>> {
    g.update(r, g[r].update(c, ch))
}

impl CanvasState {
    pub fn new() -> (c: Self)
        ensures
            c.selected_piece == 0,
            c.cursor_row == 1,
            c.cursor_col == 3,
            c.current_shape == 0,
            c.grid == EMPTY_GRID,
            c.mode == CanvasMode::PiecePicker,
    {
        CanvasState {
            selected_piece: 0,
            cursor_row: 1,
            cursor_col: 3,
            current_shape: 0,
            grid: EMPTY_GRID,
            mode: CanvasMode::PiecePicker,
        }
    }

    /// The type of the piece being drawn.
    pub fn piece_type(&self) -> (pt: usize)
        requires
            self.selected_piece < 6,
        ensures
            pt == PIECE_TYPES[self.selected_piece as int].0,
    {
        PIECE_TYPES[self.selected_piece].0
    }

    /// The name of the piece being drawn.
    pub fn piece_name(&self) -> (name: &'static str)
        requires
            self.selected_piece < 6,
        ensures
            name == PIECE_TYPES[self.selected_piece as int].1,
    {
        PIECE_TYPES[self.selected_piece].1
    }

    /// The shape that stamping puts down.
    pub fn current_char(&self) -> (ch: char)
        requires
            self.current_shape < 212,
        ensures
            ch == SHAPE_PALETTE[self.current_shape as int],
    {
        SHAPE_PALETTE[self.current_shape]
    }

    /// Starts from the saved design of the current piece, or a blank grid.
    pub fn load_grid(&mut self, customs: &CustomPieces)
        requires
            old(self).selected_piece < 6,
        ensures
            final(self).grid == if customs.pieces@.contains_key(
                PIECE_TYPES[old(self).selected_piece as int].0,
            ) {
                customs.pieces@[PIECE_TYPES[old(self).selected_piece as int].0]
            } else {
                EMPTY_GRID
            },
            final(self).selected_piece == old(self).selected_piece,
            final(self).cursor_row == old(self).cursor_row,
            final(self).cursor_col == old(self).cursor_col,
            final(self).current_shape == old(self).current_shape,
            final(self).mode == old(self).mode,
    {
        self.grid = match customs.get(self.piece_type()) {
            Some(g) => *g,
            None => EMPTY_GRID,
        };
    }

    /// Puts the current shape in the cell under the cursor.
    pub fn stamp(&mut self)
        requires
            old(self).cursor_row < 3,
            old(self).cursor_col < 7,
            old(self).current_shape < 212,
        ensures
            grid_view(final(self).grid) == grid_with(
                grid_view(old(self).grid),
                old(self).cursor_row as int,
                old(self).cursor_col as int,
                SHAPE_PALETTE[old(self).current_shape as int],
            ),
            final(self).selected_piece == old(self).selected_piece,
            final(self).cursor_row == old(self).cursor_row,
            final(self).cursor_col == old(self).cursor_col,
            final(self).current_shape == old(self).current_shape,
            final(self).mode == old(self).mode,
    {
        let ch = self.current_char();
        self.put(ch);
    }

    /// Blanks the cell under the cursor.
    pub fn erase(&mut self)
        requires
            old(self).cursor_row < 3,
            old(self).cursor_col < 7,
        ensures
            grid_view(final(self).grid) == grid_with(
                grid_view(old(self).grid),
                old(self).cursor_row as int,
                old(self).cursor_col as int,
                ' ',
            ),
            final(self).selected_piece == old(self).selected_piece,
            final(self).cursor_row == old(self).cursor_row,
            final(self).cursor_col == old(self).cursor_col,
            final(self).current_shape == old(self).current_shape,
            final(self).mode == old(self).mode,
    {
        self.put(' ');
    }

    fn put(&mut self, ch: char)
        requires
            old(self).cursor_row < 3,
            old(self).cursor_col < 7,
        ensures
            grid_view(final(self).grid) == grid_with(
                grid_view(old(self).grid),
                old(self).cursor_row as int,
                old(self).cursor_col as int,
                ch,
            ),
            final(self).selected_piece == old(self).selected_piece,
            final(self).cursor_row == old(self).cursor_row,
            final(self).cursor_col == old(self).cursor_col,
            final(self).current_shape == old(self).current_shape,
            final(self).mode == old(self).mode,
    {
        let r = self.cursor_row;
        let c = self.cursor_col;
        let g = self.grid;
        let row0 = if r == 0 { with_cell(g[0], c, ch) } else { g[0] };
        let row1 = if r == 1 { with_cell(g[1], c, ch) } else { g[1] };
        let row2 = if r == 2 { with_cell(g[2], c, ch) } else { g[2] };
        self.grid = [row0, row1, row2];
        assert(grid_view(self.grid) =~= grid_with(grid_view(g), r as int, c as int, ch));
    }
}

} // verus!
