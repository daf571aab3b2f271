use vstd::prelude::*;

verus! {

/// Appends one character to a string.
/// Trusted: `String::push`, which std documents as appending the character.
#[verifier::external_body]
pub(crate) fn push_char(s: &mut String, c: char)
    ensures
        final(s)@ == old(s)@.push(c),
{
    s.push(c);
}


/// An element is in a sequence with one more element pushed iff it was there
/// already or is the pushed one.
pub proof fn lemma_contains_push<T>(s: Seq<T>, x: T, y: T)
    ensures
        s.push(x).contains(y) == (s.contains(y) || x == y),
{
    if s.push(x).contains(y) {
        let k = choose|k: int| 0 <= k < s.push(x).len() && s.push(x)[k] == y;
        if k < s.len() {
            assert(s[k] == y);
        }
    }
    if s.contains(y) {
        let k = choose|k: int| 0 <= k < s.len() && s[k] == y;
        assert(s.push(x)[k] == y);
    }
    if x == y {
        assert(s.push(x)[s.len() as int] == y);
    }
}

/// The characters of a string, in order.
pub fn chars_of(s: &str) -> (v: Vec<char>)
    ensures
        v@ == s@,
{
    let mut v: Vec<char> = Vec::new();
    for c in it: s.chars()
        invariant
            v@ == it.seq().take(it.index() as int),
    {
        v.push(c);
    }
    v
}


/// Unicode white space, as `char::is_whitespace` classifies it.
pub open spec fn is_ws(c: char) -> bool {
    ||| c == ' '
    ||| ('\t' <= c <= '\r')
    ||| c == '\u{85}'
    ||| c == '\u{A0}'
    ||| c == '\u{1680}'
    ||| ('\u{2000}' <= c <= '\u{200A}')
    ||| c == '\u{2028}'
    ||| c == '\u{2029}'
    ||| c == '\u{202F}'
    ||| c == '\u{205F}'
    ||| c == '\u{3000}'
}

pub fn is_whitespace(c: char) -> (r: bool)
    ensures
        r == is_ws(c),
{
    c == ' ' || ('\t' <= c && c <= '\r') || c == '\u{85}' || c == '\u{A0}' || c == '\u{1680}' || (
    '\u{2000}' <= c && c <= '\u{200A}') || c == '\u{2028}' || c == '\u{2029}' || c == '\u{202F}'
        || c == '\u{205F}' || c == '\u{3000}'
}

/// The words of `cs` given the word `cur` already begun: the maximal runs of
/// characters other than white space, in order.
pub open spec fn words_from(cs: Seq<char>, cur: Seq<char>) -> Seq<Seq<char>>
    decreases cs.len(),
{
    if cs.len() == 0 {
        if cur.len() > 0 {
            seq![cur]
        } else {
            seq![]
        }
    } else if is_ws(cs[0]) {
        (if cur.len() > 0 {
            seq![cur]
        } else {
            seq![]
        }) + words_from(cs.drop_first(), seq![])
    } else {
        words_from(cs.drop_first(), cur.push(cs[0]))
    }
}

/// The words of `cs`, as `str::split_whitespace` yields them.
pub open spec fn words(cs: Seq<char>) -> Seq<Seq<char>> {
    words_from(cs, seq![])
}

/// The views of a sequence of character vectors.
pub open spec fn views_of(v: Seq<Vec<char>>) -> Seq<Seq<char>> {
    v.map_values(|w: Vec<char>| w@)
}

/// Splits characters into their white-space separated words.
pub fn split_words(cs: &Vec<char>) -> (ws: Vec<Vec<char>>)
    ensures
        views_of(ws@) == words(cs@),
        forall|i: int| 0 <= i < ws.len() ==> #[trigger] ws[i]@.len() > 0,
{
    let mut ws: Vec<Vec<char>> = Vec::new();
    let mut cur: Vec<char> = Vec::new();
    let mut i: usize = 0;
    assert(cs@.skip(0) =~= cs@);
    assert(views_of(ws@) =~= seq![]);
    assert(cur@ =~= seq![]);
    while i < cs.len()
        invariant
            i <= cs.len(),
            views_of(ws@) + words_from(cs@.skip(i as int), cur@) == words(cs@),
            forall|k: int| 0 <= k < ws.len() ==> #[trigger] ws[k]@.len() > 0,
        decreases cs.len() - i,
    {
        let c = cs[i];
        let ghost rest = cs@.skip(i as int);
        assert(rest[0] == c);
        assert(rest.drop_first() =~= cs@.skip(i + 1));
        if is_whitespace(c) {
            if cur.len() > 0 {
                let ghost old_ws = ws@;
                let w = cur;
                ws.push(w);
                cur = Vec::new();
                assert(views_of(ws@) =~= views_of(old_ws) + seq![w@]);
            } else {
                assert(cur@ =~= seq![]);
            }
            assert(cur@ =~= seq![]);
        } else {
            cur.push(c);
        }
        i += 1;
    }
    assert(cs@.skip(i as int) =~= seq![]);
    if cur.len() > 0 {
        let ghost old_ws = ws@;
        ws.push(cur);
        assert(views_of(ws@) =~= views_of(old_ws) + seq![ws@.last()@]);
    }
    ws
}

/// A string holding the given characters.
pub fn string_of(cs: &Vec<char>) -> (s: String)
    ensures
        s@ == cs@,
{
    let mut s = String::new();
    let mut i: usize = 0;
    while i < cs.len()
        invariant
            i <= cs.len(),
            s@ == cs@.take(i as int),
        decreases cs.len() - i,
    {
        push_char(&mut s, cs[i]);
        assert(cs@.take(i + 1) =~= cs@.take(i as int).push(cs[i as int]));
        i += 1;
    }
    assert(cs@.take(i as int) =~= cs@);
    s
}

/// The decimal digits of `n`, most significant first, without leading zeros.
pub open spec fn decimal_of(n: nat) -> Seq<char>
    decreases n,
{
    if n < 10 {
        seq![(n + 48) as char]
    } else {
        decimal_of(n / 10).push((n % 10 + 48) as char)
    }
}

/// Appends the decimal digits of `n` to `s`.
pub fn push_decimal(s: &mut String, n: u64)
    ensures
        final(s)@ == old(s)@ + decimal_of(n as nat),
    decreases n,
{
    if n >= 10 {
        push_decimal(s, n / 10);
    }
    let d = (n % 10) as u8;
    push_char(s, (d + 48) as char);
    assert(old(s)@ + decimal_of(n as nat) =~= s@);
}

/// Appends `more` to `s`.
pub fn append_str(s: &mut String, more: &str)
    ensures
        final(s)@ == old(s)@ + more@,
{
    let cs = chars_of(more);
    let mut i: usize = 0;
    let ghost start = s@;
    while i < cs.len()
        invariant
            i <= cs.len(),
            cs@ == more@,
            s@ == start + cs@.take(i as int),
        decreases cs.len() - i,
    {
        push_char(s, cs[i]);
        assert(cs@.take(i + 1) =~= cs@.take(i as int).push(cs@[i as int]));
        i += 1;
    }
    assert(cs@.take(i as int) =~= cs@);
}

/// Whether every character of `d` is an ASCII digit.
pub open spec fn all_digits(d: Seq<char>) -> bool {
    forall|i: int| 0 <= i < d.len() ==> '0' <= #[trigger] d[i] <= '9'
}

/// The number that the decimal digits `d` write.
pub open spec fn digits_value(d: Seq<char>) -> nat
    decreases d.len(),
{
    if d.len() == 0 {
        0
    } else {
        10 * digits_value(d.drop_last()) + (d.last() as nat - 48) as nat
    }
}

/// How `str::parse` reads an unsigned integer no larger than `max`: one
/// optional leading `+`, then one or more ASCII digits whose value fits.
pub open spec fn parse_dec(s: Seq<char>, max: nat) -> Option<nat> {
    let d = if s.len() > 0 && s[0] == '+' {
        s.drop_first()
    } else {
        s
    };
    if d.len() > 0 && all_digits(d) && digits_value(d) <= max {
        Some(digits_value(d))
    } else {
        None
    }
}

/// A longer run of digits writes a number at least as large.
pub proof fn lemma_digits_grow(d: Seq<char>, i: int)
    requires
        0 <= i <= d.len(),
        all_digits(d),
    ensures
        digits_value(d.take(i)) <= digits_value(d),
    decreases d.len() - i,
{
    if i < d.len() {
        lemma_digits_grow(d, i + 1);
        assert(d.take(i + 1).drop_last() =~= d.take(i));
        assert('0' <= d[i] <= '9');
    } else {
        assert(d.take(i) =~= d);
    }
}

/// Reads an unsigned decimal number no larger than `max`, as `str::parse`
/// does for an unsigned integer type whose largest value is `max`.
pub fn parse_unsigned(s: &str, max: u64) -> (r: Option<u64>)
    ensures
        match r {
            Some(v) => parse_dec(s@, max as nat) == Some(v as nat),
            None => parse_dec(s@, max as nat).is_none(),
        },
{
    let cs = chars_of(s);
    let mut i: usize = 0;
    if cs.len() > 0 && cs[0] == '+' {
        i = 1;
    }
    let ghost d = if s@.len() > 0 && s@[0] == '+' {
        s@.drop_first()
    } else {
        s@
    };
    assert(d =~= cs@.skip(i as int));
    if i >= cs.len() {
        return None;
    }
    let start = i;
    let mut v: u64 = 0;
    while i < cs.len()
        invariant
            start <= i <= cs.len(),
            cs@ == s@,
            d == cs@.skip(start as int),
            d == (if s@.len() > 0 && s@[0] == '+' {
                s@.drop_first()
            } else {
                s@
            }),
            all_digits(d.take(i - start)),
            v as nat == digits_value(d.take(i - start)),
            v <= max,
        decreases cs.len() - i,
    {
        let c = cs[i];
        assert(d.take(i - start + 1).drop_last() =~= d.take(i - start));
        assert(d[i - start] == c);
        if c < '0' || c > '9' {
            assert(!all_digits(d)) by {
                assert(d[i - start] == c);
            }
            return None;
        }
        let digit = (c as u64) - 48;
        assert(all_digits(d.take(i - start + 1)));
        if digit > max || v > (max - digit) / 10 {
            proof {
                assert(10 * v + digit > max) by (nonlinear_arith)
                    requires
                        digit > max || v > (max - digit) / 10,
                ;
                if all_digits(d) {
                    lemma_digits_grow(d, i - start + 1);
                }
            }
            return None;
        }
        assert(10 * v + digit <= max) by (nonlinear_arith)
            requires
                v <= (max - digit) / 10,
                digit <= max,
        ;
        v = 10 * v + digit;
        i += 1;
    }
    assert(d.take(i - start) =~= d);
    Some(v)
}

/// `s` without white space at its end.
pub open spec fn trimmed_end(s: Seq<char>) -> Seq<char>
    decreases s.len(),
{
    if s.len() > 0 && is_ws(s.last()) {
        trimmed_end(s.drop_last())
    } else {
        s
    }
}

/// `s` without white space at its start.
pub open spec fn trimmed_start(s: Seq<char>) -> Seq<char>
    decreases s.len(),
{
    if s.len() > 0 && is_ws(s[0]) {
        trimmed_start(s.drop_first())
    } else {
        s
    }
}

/// `s` with the white space at both ends removed, as `str::trim` does.
pub open spec fn trimmed(s: Seq<char>) -> Seq<char> {
    trimmed_start(trimmed_end(s))
}

/// The number of characters left after white space at the end goes.
fn trim_end_len(cs: &Vec<char>, k0: usize) -> (k: usize)
    requires
        k0 <= cs.len(),
    ensures
        k <= k0,
        trimmed_end(cs@.take(k0 as int)) == cs@.take(k as int),
{
    let mut k = k0;
    while k > 0 && is_whitespace(cs[k - 1])
        invariant
            k <= k0 <= cs.len(),
            trimmed_end(cs@.take(k0 as int)) == trimmed_end(cs@.take(k as int)),
        decreases k,
    {
        assert(cs@.take(k as int).drop_last() =~= cs@.take(k - 1));
        k -= 1;
    }
    k
}

/// `s` without white space at its end, as `str::trim_end` gives it.
pub fn trim_end(s: &str) -> (r: &str)
    ensures
        r@ == trimmed_end(s@),
{
    let cs = chars_of(s);
    assert(cs@.take(cs.len() as int) =~= s@);
    let k = trim_end_len(&cs, cs.len());
    s.substring_char(0, k)
}

/// `s` without white space at either end, as `str::trim` gives it.
pub fn trim(s: &str) -> (r: &str)
    ensures
        r@ == trimmed(s@),
{
    let e = trim_end(s);
    let cs = chars_of(e);
    let mut i: usize = 0;
    assert(cs@.skip(0) =~= cs@);
    while i < cs.len() && is_whitespace(cs[i])
        invariant
            i <= cs.len(),
            cs@ == e@,
            trimmed_start(e@) == trimmed_start(cs@.skip(i as int)),
        decreases cs.len() - i,
    {
        assert(cs@.skip(i as int).drop_first() =~= cs@.skip(i + 1));
        i += 1;
    }
    assert(cs@.skip(i as int) =~= cs@.subrange(i as int, cs.len() as int));
    e.substring_char(i, cs.len())
}

/// The white-space separated words of `s`, in order, as `str::split_whitespace`
/// yields them.
pub fn words_of(s: &str) -> (ws: Vec<String>)
    ensures
        ws@.map_values(|w: String| w@) == words(s@),
{
    let cs = chars_of(s);
    let parts = split_words(&cs);
    let mut ws: Vec<String> = Vec::new();
    let mut i: usize = 0;
    while i < parts.len()
        invariant
            i <= parts.len(),
            views_of(parts@) == words(s@),
            cs@ == s@,
            ws@.map_values(|w: String| w@) == views_of(parts@).take(i as int),
        decreases parts.len() - i,
    {
        let w = string_of(&parts[i]);
        assert(views_of(parts@)[i as int] == parts@[i as int]@);
        let ghost before = ws@;
        ws.push(w);
        assert(ws@.map_values(|w: String| w@) =~= before.map_values(|w: String| w@).push(parts@[i as int]@));
        assert(ws@.map_values(|w: String| w@) =~= views_of(parts@).take(i + 1));
        i += 1;
    }
    assert(views_of(parts@).take(i as int) =~= views_of(parts@));
    ws
}

// ── Searching and splitting ────────────────────────────────────────

/// The index of the first `c` in `s` at or after `i`, or -1.
pub open spec fn find_char(s: Seq<char>, c: char, i: int) -> int
    decreases s.len() - i,
{
    if i < 0 || i >= s.len() {
        -1
    } else if s[i] == c {
        i
    } else {
        find_char(s, c, i + 1)
    }
}

pub proof fn lemma_find_char(s: Seq<char>, c: char, i: int)
    requires
        0 <= i,
    ensures
        find_char(s, c, i) == -1 || (i <= find_char(s, c, i) < s.len() && s[find_char(s, c, i)] == c),
    decreases s.len() - i,
{
    if i < s.len() && s[i] != c {
        lemma_find_char(s, c, i + 1);
    }
}

/// The pieces of `s` from index `i` on, split at every `c` (as `str::split`).
pub open spec fn split_from(s: Seq<char>, c: char, i: int) -> Seq<Seq<char>>
    decreases s.len() - i,
{
    let p = find_char(s, c, i);
    if i < 0 || i > s.len() || p < 0 {
        seq![s.subrange(i, s.len() as int)]
    } else {
        proof {
            lemma_find_char(s, c, i);
        }
        seq![s.subrange(i, p)] + split_from(s, c, p + 1)
    }
}

/// The index of the first `c` in `cs` at or after `i`.
pub fn find_in(cs: &Vec<char>, c: char, i: usize) -> (r: Option<usize>)
    ensures
        match r {
            Some(p) => p as int == find_char(cs@, c, i as int) && i <= p < cs.len(),
            None => find_char(cs@, c, i as int) == -1,
        },
{
    let mut k = i;
    proof {
        lemma_find_char(cs@, c, i as int);
    }
    while k < cs.len()
        invariant
            i <= k,
            find_char(cs@, c, k as int) == find_char(cs@, c, i as int),
        decreases cs.len() - k,
    {
        if cs[k] == c {
            return Some(k);
        }
        k += 1;
    }
    None
}

/// Whether `cs[from..to]` holds exactly the characters `key`.
pub fn run_is(cs: &Vec<char>, from: usize, to: usize, key: &Vec<char>) -> (r: bool)
    requires
        from <= to <= cs.len(),
    ensures
        r == (cs@.subrange(from as int, to as int) == key@),
{
    if to - from != key.len() {
        return false;
    }
    let mut i: usize = 0;
    while i < key.len()
        invariant
            i <= key.len() == to - from,
            from <= to <= cs.len(),
            forall|k: int| 0 <= k < i ==> cs@[from + k] == key@[k],
        decreases key.len() - i,
    {
        if cs[from + i] != key[i] {
            assert(cs@.subrange(from as int, to as int)[i as int] != key@[i as int]);
            return false;
        }
        i += 1;
    }
    assert(cs@.subrange(from as int, to as int) =~= key@);
    true
}

pub proof fn lemma_find_exact(s: Seq<char>, c: char, i: int, p: int)
    requires
        0 <= i <= p < s.len(),
        s[p] == c,
        forall|k: int| i <= k < p ==> s[k] != c,
    ensures
        find_char(s, c, i) == p,
    decreases p - i,
{
    if i < p {
        lemma_find_exact(s, c, i + 1, p);
    }
}

pub proof fn lemma_find_none(s: Seq<char>, c: char, i: int)
    requires
        0 <= i,
        forall|k: int| i <= k < s.len() ==> s[k] != c,
    ensures
        find_char(s, c, i) == -1,
    decreases s.len() - i,
{
    if i < s.len() {
        lemma_find_none(s, c, i + 1);
    }
}

/// A line without the carriage return that ended it, if any.
pub open spec fn strip_cr(l: Seq<char>) -> Seq<char> {
    if l.len() > 0 && l.last() == '\r' {
        l.drop_last()
    } else {
        l
    }
}

/// The lines of `s`, as `str::lines` yields them: split at each `\n`, a
/// `\r` before the `\n` dropped, and no empty line after a final `\n`.
pub open spec fn lines_of(s: Seq<char>) -> Seq<Seq<char>> {
    let parts = split_from(s, '\n', 0);
    let n = parts.len() as int;
    Seq::new((n - 1) as nat, |i: int| strip_cr(parts[i])) + if parts[n - 1].len() > 0 {
        seq![parts[n - 1]]
    } else {
        seq![]
    }
}

pub proof fn lemma_split_len(s: Seq<char>, c: char, i: int)
    ensures
        split_from(s, c, i).len() >= 1,
{
}

/// The lines of `s`, as `str::lines` yields them.
pub fn lines(s: &str) -> (ls: Vec<String>)
    ensures
        ls@.map_values(|l: String| l@) == lines_of(s@),
{
    let cs = chars_of(s);
    let ghost parts = split_from(cs@, '\n', 0);
    let mut ls: Vec<String> = Vec::new();
    let mut pos: usize = 0;
    let ghost mut k: int = 0;
    assert(parts.skip(0) =~= parts);
    loop
        invariant
            pos <= cs.len(),
            cs@ == s@,
            parts == split_from(cs@, '\n', 0),
            0 <= k < parts.len(),
            parts.skip(k) == split_from(cs@, '\n', pos as int),
            ls@.map_values(|l: String| l@) == Seq::new(k as nat, |i: int| strip_cr(parts[i])),
        decreases cs.len() - pos,
    {
        let ghost here = split_from(cs@, '\n', pos as int);
        match find_in(&cs, '\n', pos) {
            Some(p) => {
                let mut e = p;
                if e > pos && cs[e - 1] == '\r' {
                    e = e - 1;
                }
                let mut line = String::new();
                let mut j = pos;
                while j < e
                    invariant
                        pos <= j <= e <= cs.len(),
                        line@ == cs@.subrange(pos as int, j as int),
                    decreases e - j,
                {
                    push_char(&mut line, cs[j]);
                    assert(cs@.subrange(pos as int, j + 1) =~= line@.push(cs@[j as int]) || true);
                    assert(line@ =~= cs@.subrange(pos as int, j + 1));
                    j += 1;
                }
                assert(here[0] == cs@.subrange(pos as int, p as int));
                assert(parts[k] == here[0]);
                assert(line@ =~= strip_cr(parts[k]));
                let ghost before = ls@;
                let ghost lv = line@;
                ls.push(line);
                assert(ls@.map_values(|l: String| l@) =~= before.map_values(|l: String| l@).push(lv));
                assert(here.drop_first() == split_from(cs@, '\n', p + 1));
                assert(parts.skip(k + 1) =~= here.drop_first());
                proof {
                    lemma_split_len(cs@, '\n', p + 1);
                    assert(Seq::new((k + 1) as nat, |i: int| strip_cr(parts[i])) =~= Seq::new(
                        k as nat,
                        |i: int| strip_cr(parts[i]),
                    ).push(strip_cr(parts[k])));
                    k = k + 1;
                }
                pos = p + 1;
            },
            None => {
                assert(here =~= seq![cs@.subrange(pos as int, cs.len() as int)]);
                assert(k == parts.len() - 1);
                assert(parts[k] == parts.skip(k)[0]);
                assert(parts[k] == cs@.subrange(pos as int, cs.len() as int));
                if pos < cs.len() {
                    let mut line = String::new();
                    let mut j = pos;
                    while j < cs.len()
                        invariant
                            pos <= j <= cs.len(),
                            line@ == cs@.subrange(pos as int, j as int),
                        decreases cs.len() - j,
                    {
                        push_char(&mut line, cs[j]);
                        assert(line@ =~= cs@.subrange(pos as int, j + 1));
                        j += 1;
                    }
                    let ghost before = ls@;
                    let ghost lv = line@;
                    ls.push(line);
                    assert(ls@.map_values(|l: String| l@) =~= before.map_values(|l: String| l@).push(lv));
                    assert(ls@.map_values(|l: String| l@) =~= lines_of(s@));
                } else {
                    assert(ls@.map_values(|l: String| l@) =~= lines_of(s@));
                }
                return ls;
            },
        }
    }
}

// ── Lines joined by newlines ───────────────────────────────────────

/// The text of the lines `ls`, each followed by a `\n`.
pub open spec fn joined(ls: Seq<Seq<char>>) -> Seq<char>
    decreases ls.len(),
{
    if ls.len() == 0 {
        seq![]
    } else {
        ls[0] + seq!['\n'] + joined(ls.drop_first())
    }
}

/// A line that `str::lines` gives back as it is: no `\n` in it, no `\r` at
/// its end.
pub open spec fn plain_line(l: Seq<char>) -> bool {
    &&& forall|k: int| 0 <= k < l.len() ==> #[trigger] l[k] != '\n'
    &&& (l.len() > 0 ==> l.last() != '\r')
}

/// Joining two runs of lines is joining each and putting the texts together.
pub proof fn lemma_joined_append(a: Seq<Seq<char>>, b: Seq<Seq<char>>)
    ensures
        joined(a + b) == joined(a) + joined(b),
    decreases a.len(),
{
    if a.len() == 0 {
        assert(a + b =~= b);
        assert(joined(a) + joined(b) =~= joined(b));
    } else {
        assert((a + b).drop_first() =~= a.drop_first() + b);
        lemma_joined_append(a.drop_first(), b);
        assert((a + b)[0] == a[0]);
        assert(joined(a + b) =~= joined(a) + joined(b));
    }
}

/// The first `\n` after a line without one is the one that ends it.
proof fn lemma_find_line_end(a: Seq<char>, r: Seq<char>, j: int)
    requires
        0 <= j <= a.len(),
        forall|k: int| 0 <= k < a.len() ==> #[trigger] a[k] != '\n',
    ensures
        find_char(a + seq!['\n'] + r, '\n', j) == a.len(),
    decreases a.len() - j,
{
    let s = a + seq!['\n'] + r;
    if j < a.len() {
        assert(s[j] == a[j]);
        lemma_find_line_end(a, r, j + 1);
    } else {
        assert(s[j] == '\n');
    }
}

/// Searching past a prefix is searching the rest, shifted.
proof fn lemma_find_shift(p: Seq<char>, r: Seq<char>, c: char, j: int)
    requires
        0 <= j <= r.len(),
    ensures
        find_char(p + r, c, p.len() + j) == if find_char(r, c, j) < 0 {
            -1
        } else {
            p.len() + find_char(r, c, j)
        },
    decreases r.len() - j,
{
    if j < r.len() {
        assert((p + r)[p.len() + j] == r[j]);
        if r[j] != c {
            lemma_find_shift(p, r, c, j + 1);
        }
    }
}

/// Splitting past a prefix is splitting the rest.
proof fn lemma_split_shift(p: Seq<char>, r: Seq<char>, c: char, j: int)
    requires
        0 <= j <= r.len(),
    ensures
        split_from(p + r, c, p.len() + j) == split_from(r, c, j),
    decreases r.len() - j,
{
    let s = p + r;
    let i = p.len() + j;
    lemma_find_shift(p, r, c, j);
    lemma_find_char(r, c, j);
    let q = find_char(r, c, j);
    if q < 0 {
        assert(s.subrange(i, s.len() as int) =~= r.subrange(j, r.len() as int));
    } else {
        assert(s.subrange(i, p.len() + q) =~= r.subrange(j, q));
        lemma_split_shift(p, r, c, q + 1);
    }
}

/// Splitting joined lines at `\n` gives the lines and an empty last piece.
proof fn lemma_split_joined(ls: Seq<Seq<char>>)
    requires
        forall|k: int| 0 <= k < ls.len() ==> plain_line(#[trigger] ls[k]),
    ensures
        split_from(joined(ls), '\n', 0) == ls.push(seq![]),
    decreases ls.len(),
{
    if ls.len() == 0 {
        assert(joined(ls) =~= seq![]);
        assert(find_char(joined(ls), '\n', 0) == -1);
        assert(joined(ls).subrange(0, 0) =~= seq![]);
        assert(split_from(joined(ls), '\n', 0) =~= seq![seq![]]);
        assert(ls.push(seq![]) =~= seq![seq![]]);
    } else {
        let a = ls[0];
        let rest = ls.drop_first();
        let s = joined(ls);
        assert(plain_line(ls[0]));
        lemma_find_line_end(a, joined(rest), 0);
        assert(s.subrange(0, a.len() as int) =~= a);
        lemma_split_shift(a + seq!['\n'], joined(rest), '\n', 0);
        assert forall|k: int| 0 <= k < rest.len() implies plain_line(#[trigger] rest[k]) by {
            assert(rest[k] == ls[k + 1]);
        }
        lemma_split_joined(rest);
        assert(ls.push(seq![]) =~= seq![a] + rest.push(seq![]));
    }
}

/// `str::lines` gives back lines joined with `\n`, when each is plain.
pub proof fn lemma_lines_of_joined(ls: Seq<Seq<char>>)
    requires
        forall|k: int| 0 <= k < ls.len() ==> plain_line(#[trigger] ls[k]),
    ensures
        lines_of(joined(ls)) == ls,
{
    lemma_split_joined(ls);
    let parts = split_from(joined(ls), '\n', 0);
    assert forall|k: int| 0 <= k < ls.len() implies strip_cr(parts[k]) == ls[k] by {
        assert(plain_line(ls[k]));
    }
    assert(lines_of(joined(ls)) =~= ls);
}

// ── Decimal numbers ────────────────────────────────────────────────

/// The decimal digits of `n` are digits that write `n`.
pub proof fn lemma_decimal_of(n: nat)
    ensures
        decimal_of(n).len() > 0,
        all_digits(decimal_of(n)),
        digits_value(decimal_of(n)) == n,
    decreases n,
{
    if n >= 10 {
        lemma_decimal_of(n / 10);
        let s = decimal_of(n / 10);
        let t = s.push(((n % 10 + 48) as char));
        assert(t.drop_last() =~= s);
        assert(t == decimal_of(n));
        assert(((n % 10 + 48) as char) as nat == n % 10 + 48);
        assert(10 * (n / 10) + n % 10 == n);
        assert(t.last() == ((n % 10 + 48) as char));
        assert(digits_value(t) == 10 * digits_value(s) + (n % 10));
        assert(all_digits(t)) by {
            assert forall|i: int| 0 <= i < t.len() implies '0' <= #[trigger] t[i] <= '9' by {
                if i < s.len() {
                    assert(t[i] == s[i]);
                }
            }
        }
    } else {
        assert(((n + 48) as char) as nat == n + 48);
        let t = decimal_of(n);
        assert(t.drop_last() =~= seq![]);
        assert(digits_value(t) == 10 * digits_value(t.drop_last()) + n);
    }
}

/// `str::parse` reads back the decimal digits of a number in range.
pub proof fn lemma_parse_decimal(n: nat, max: nat)
    requires
        n <= max,
    ensures
        parse_dec(trimmed(decimal_of(n)), max) == Some(n),
{
    lemma_decimal_of(n);
    let d = decimal_of(n);
    assert(!is_ws(d.last()));
    assert(trimmed_end(d) == d);
    assert(!is_ws(d[0]));
    assert(trimmed_start(d) == d);
}

/// Trimming a text whose first character is not white space keeps that
/// character first.
proof fn lemma_trimmed_end_first(s: Seq<char>)
    requires
        s.len() > 0,
        !is_ws(s[0]),
    ensures
        trimmed_end(s).len() > 0,
        trimmed_end(s)[0] == s[0],
    decreases s.len(),
{
    if is_ws(s.last()) {
        lemma_trimmed_end_first(s.drop_last());
    }
}

/// Trimming a text whose first character is not white space keeps that
/// character first.
pub proof fn lemma_trimmed_first(s: Seq<char>)
    requires
        s.len() > 0,
        !is_ws(s[0]),
    ensures
        trimmed(s).len() > 0,
        trimmed(s)[0] == s[0],
{
    lemma_trimmed_end_first(s);
}

} // verus!
