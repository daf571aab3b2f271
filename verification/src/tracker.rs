//! The server tracker's HTTP side: query parameters, request routing and
//! response framing.
use vstd::prelude::*;

use crate::text::{
    append_str, chars_of, decimal_of, find_char, find_in, lemma_find_char, lemma_find_exact,
    lemma_find_none, lines, lines_of, parse_dec, parse_unsigned, push_char, push_decimal, run_is,
    split_from, trim, trimmed,
};

verus! {

/// A game server as the tracker lists it.
pub struct RemoteServer {
    pub host: String,
    pub port: u16,
    pub name: String,
    pub players: u32,
}

/// The value of the first `key=value` pair among `pairs` whose key is `key`:
/// what follows its first `=`. Pairs without `=` are passed over.
pub open spec fn param_in(pairs: Seq<Seq<char>>, key: Seq<char>) -> Option<Seq<char>>
    decreases pairs.len(),
{
    if pairs.len() == 0 {
        None
    } else {
        let p = pairs[0];
        let e = find_char(p, '=', 0);
        if e >= 0 && p.subrange(0, e) == key {
            Some(p.subrange(e + 1, p.len() as int))
        } else {
            param_in(pairs.drop_first(), key)
        }
    }
}

/// The value of parameter `key` in a URL query such as `a=1&b=2`.
pub fn parse_query_param<'a>(query: &'a str, key: &str) -> (r: Option<&'a str>)
    ensures
        match r {
            Some(v) => param_in(split_from(query@, '&', 0), key@) == Some(v@),
            None => param_in(split_from(query@, '&', 0), key@).is_none(),
        },
{
    let cs = chars_of(query);
    let ks = chars_of(key);
    let mut pos: usize = 0;
    loop
        invariant
            pos <= cs.len(),
            cs@ == query@,
            ks@ == key@,
            param_in(split_from(cs@, '&', pos as int), key@) == param_in(
                split_from(query@, '&', 0),
                key@,
            ),
        decreases cs.len() - pos,
    {
        let end = match find_in(&cs, '&', pos) {
            Some(p) => p,
            None => cs.len(),
        };
        let ghost pair = cs@.subrange(pos as int, end as int);
        assert(split_from(cs@, '&', pos as int)[0] == pair);
        let mut e = pos;
        while e < end && cs[e] != '='
            invariant
                pos <= e <= end <= cs.len(),
                forall|k: int| pos <= k < e ==> cs@[k] != '=',
            decreases end - e,
        {
            e += 1;
        }
        proof {
            lemma_find_char(pair, '=', 0);
            if e < end {
                assert(pair[e - pos] == '=');
                assert forall|k: int| 0 <= k < e - pos implies pair[k] != '=' by {
                    assert(pair[k] == cs@[pos + k]);
                }
                lemma_find_exact(pair, '=', 0, e - pos);
            } else {
                assert forall|k: int| 0 <= k < pair.len() implies pair[k] != '=' by {
                    assert(pair[k] == cs@[pos + k]);
                }
                lemma_find_none(pair, '=', 0);
            }
        }
        if e < end && run_is(&cs, pos, e, &ks) {
            assert(pair.subrange(0, e - pos) =~= cs@.subrange(pos as int, e as int));
            let v = query.substring_char(e + 1, end);
            assert(v@ =~= pair.subrange(e - pos + 1, pair.len() as int));
            return Some(v);
        }
        if e < end {
            assert(pair.subrange(0, e - pos) =~= cs@.subrange(pos as int, e as int));
        }
        assert(param_in(split_from(cs@, '&', pos as int), key@) == param_in(
            split_from(cs@, '&', pos as int).drop_first(),
            key@,
        ));
        if end == cs.len() {
            assert(split_from(cs@, '&', pos as int).drop_first() =~= seq![]);
            return None;
        }
        assert(split_from(cs@, '&', pos as int).drop_first() == split_from(cs@, '&', end + 1));
        pos = end + 1;
    }
}

// ── Responses ──────────────────────────────────────────────────────

/// An HTTP 200 response carrying `json`, its length counted in bytes.
pub fn respond_json(json: &str) -> (r: String)
    ensures
        r@ == "HTTP/1.1 200 OK\r\nContent-Type: application/json\r\nAccess-Control-Allow-Origin: *\r\nContent-Length: "@
            + decimal_of(json.len() as nat) + "\r\n\r\n"@ + json@,
{
    let mut r = "HTTP/1.1 200 OK\r\nContent-Type: application/json\r\nAccess-Control-Allow-Origin: *\r\nContent-Length: ".to_owned();
    push_decimal(&mut r, json.len() as u64);
    append_str(&mut r, "\r\n\r\n");
    append_str(&mut r, json);
    r
}

/// An HTTP error response with status `code` and text body `msg`.
pub fn respond_error(code: u16, msg: &str) -> (r: String)
    ensures
        r@ == "HTTP/1.1 "@ + decimal_of(code as nat) + " Error\r\nContent-Length: "@ + decimal_of(
            msg.len() as nat,
        ) + "\r\n\r\n"@ + msg@,
{
    let mut r = "HTTP/1.1 ".to_owned();
    push_decimal(&mut r, code as u64);
    append_str(&mut r, " Error\r\nContent-Length: ");
    push_decimal(&mut r, msg.len() as u64);
    append_str(&mut r, "\r\n\r\n");
    append_str(&mut r, msg);
    r
}

// ── Requests ───────────────────────────────────────────────────────

/// What a request asks of the tracker, by the start of its first line.
#[derive(Clone, Copy, Debug, PartialEq, Eq, Structural)]
pub enum Route {
    Servers,
    Puzzles,
    Themes,
    Register,
    Unregister,
    Version,
    NotFound,
}

pub open spec fn starts_with(s: Seq<char>, p: Seq<char>) -> bool {
    p.len() <= s.len() && s.subrange(0, p.len() as int) == p
}

/// The route of a request line: the first of the known prefixes it starts with.
pub open spec fn route_of(line: Seq<char>) -> Route {
    if starts_with(line, "GET /servers"@) {
        Route::Servers
    } else if starts_with(line, "GET /puzzles"@) {
        Route::Puzzles
    } else if starts_with(line, "GET /themes"@) {
        Route::Themes
    } else if starts_with(line, "POST /register"@) {
        Route::Register
    } else if starts_with(line, "DELETE /register"@) {
        Route::Unregister
    } else if starts_with(line, "GET /version"@) {
        Route::Version
    } else {
        Route::NotFound
    }
}

fn has_prefix(cs: &Vec<char>, p: &str) -> (r: bool)
    ensures
        r == starts_with(cs@, p@),
{
    let ps = chars_of(p);
    if ps.len() > cs.len() {
        return false;
    }
    run_is(cs, 0, ps.len(), &ps)
}

/// Routes a request by its first line.
pub fn route(first_line: &str) -> (r: Route)
    ensures
        r == route_of(first_line@),
{
    let cs = chars_of(first_line);
    if has_prefix(&cs, "GET /servers") {
        Route::Servers
    } else if has_prefix(&cs, "GET /puzzles") {
        Route::Puzzles
    } else if has_prefix(&cs, "GET /themes") {
        Route::Themes
    } else if has_prefix(&cs, "POST /register") {
        Route::Register
    } else if has_prefix(&cs, "DELETE /register") {
        Route::Unregister
    } else if has_prefix(&cs, "GET /version") {
        Route::Version
    } else {
        Route::NotFound
    }
}

/// What a puzzle request asks for.
pub struct PuzzleRequest {
    pub theme: String,
    pub max_rating: u16,
    pub limit: usize,
    pub offset: usize,
}

/// The query of a request line: what follows its first `?`, up to a second
/// one; empty when there is none.
pub open spec fn query_of(line: Seq<char>) -> Seq<char> {
    let parts = split_from(line, '?', 0);
    if parts.len() > 1 {
        parts[1]
    } else {
        seq![]
    }
}

/// A parameter read as a number no larger than `max`, or `default` when it is
/// missing or not such a number.
pub open spec fn number_param(q: Seq<char>, key: Seq<char>, max: nat, default: nat) -> nat {
    match param_in(split_from(q, '&', 0), key) {
        Some(v) => match parse_dec(v, max) {
            Some(n) => n,
            None => default,
        },
        None => default,
    }
}

fn number_or(query: &str, key: &str, max: u64, default: u64) -> (r: u64)
    requires
        default <= max,
    ensures
        r as nat == number_param(query@, key@, max as nat, default as nat),
{
    match parse_query_param(query, key) {
        Some(v) => match parse_unsigned(v, max) {
            Some(n) => n,
            None => default,
        },
        None => default,
    }
}

/// Reads a puzzle request line such as
/// `GET /puzzles?theme=fork&max_rating=2000&offset=0&limit=50`: the theme
/// defaults to `fork`, the rating cap to 2500, the offset to 0, the limit to
/// 50, and the limit is at most 100.
pub fn puzzle_request(first_line: &str) -> (r: PuzzleRequest)
    ensures
        r.theme@ == match param_in(split_from(query_of(first_line@), '&', 0), "theme"@) {
            Some(t) => t,
            None => "fork"@,
        },
        r.max_rating as nat == number_param(query_of(first_line@), "max_rating"@, 65535, 2500),
        r.limit as nat == if number_param(query_of(first_line@), "limit"@, usize::MAX as nat, 50)
            < 100 {
            number_param(query_of(first_line@), "limit"@, usize::MAX as nat, 50)
        } else {
            100
        },
        r.offset as nat == number_param(query_of(first_line@), "offset"@, usize::MAX as nat, 0),
{
    let cs = chars_of(first_line);
    let query: &str = match find_in(&cs, '?', 0) {
        Some(p) => {
            let end = match find_in(&cs, '?', p + 1) {
                Some(e) => e,
                None => cs.len(),
            };
            proof {
                assert(split_from(cs@, '?', 0).drop_first() == split_from(cs@, '?', p + 1));
            }
            first_line.substring_char(p + 1, end)
        },
        None => {
            let q = "";
            proof {
                reveal_strlit("");
            }
            q
        },
    };
    assert(query@ =~= query_of(first_line@));
    let theme = match parse_query_param(query, "theme") {
        Some(t) => t.to_owned(),
        None => "fork".to_owned(),
    };
    let max_rating = number_or(query, "max_rating", 65535, 2500) as u16;
    let limit = number_or(query, "limit", usize::MAX as u64, 50) as usize;
    let limit = if limit < 100 {
        limit
    } else {
        100
    };
    let offset = number_or(query, "offset", usize::MAX as u64, 0) as usize;
    PuzzleRequest { theme, max_rating, limit, offset }
}

// ── Request headers ────────────────────────────────────────────────

/// The first line of a request, or an empty line when it has none.
pub open spec fn spec_request_line(request: Seq<char>) -> Seq<char> {
    let ls = lines_of(request);
    if ls.len() > 0 {
        ls[0]
    } else {
        seq![]
    }
}

/// The first line of a request, as `lines().next()` gives it; empty when the
/// request has no line.
pub fn request_line(request: &str) -> (l: String)
    ensures
        l@ == spec_request_line(request@),
{
    let ls = lines(request);
    if ls.len() > 0 {
        assert(ls@.map_values(|x: String| x@)[0] == ls@[0]@);
        crate::server::clone_string(&ls[0])
    } else {
        String::new()
    }
}

/// The lower-case form of a text, as `str::to_lowercase` gives it (full
/// Unicode case mapping).
pub uninterp spec fn lowercase(s: Seq<char>) -> Seq<char>;

/// Lower-cases a text.
/// Trusted: `str::to_lowercase`; its Unicode mapping is not written out: the
/// result is named `lowercase` of the text, and nothing more is claimed.
#[verifier::external_body]
fn to_lowercase(s: &str) -> (r: String)
    ensures
        r@ == lowercase(s@),
{
    s.to_lowercase()
}

/// Whether a lower-cased line names the client id header.
pub open spec fn spec_is_id_header(lowered: Seq<char>) -> bool {
    starts_with(lowered, "x-cheshire-id:"@)
}

/// Whether a lower-cased header line names the client id header.
pub fn is_id_header(lowered: &str) -> (r: bool)
    ensures
        r == spec_is_id_header(lowered@),
{
    let cs = chars_of(lowered);
    has_prefix(&cs, "x-cheshire-id:")
}

/// The value of a header line: the text after its first ':' up to the next
/// one, trimmed; empty when the line has no ':'.
pub open spec fn spec_header_value(line: Seq<char>) -> Seq<char> {
    let parts = split_from(line, ':', 0);
    trimmed(
        if parts.len() > 1 {
            parts[1]
        } else {
            seq![]
        },
    )
}

/// The characters of `cs` from `a` up to `b`.
fn string_between(cs: &Vec<char>, a: usize, b: usize) -> (s: String)
    requires
        a <= b <= cs.len(),
    ensures
        s@ == cs@.subrange(a as int, b as int),
{
    let mut s = String::new();
    let mut i: usize = a;
    while i < b
        invariant
            a <= i <= b <= cs.len(),
            s@ == cs@.subrange(a as int, i as int),
        decreases b - i,
    {
        push_char(&mut s, cs[i]);
        assert(cs@.subrange(a as int, i + 1) =~= cs@.subrange(a as int, i as int).push(cs@[i as int]));
        i += 1;
    }
    s
}

/// The value of a header line (see `spec_header_value`).
pub fn header_value(line: &str) -> (v: String)
    ensures
        v@ == spec_header_value(line@),
{
    let cs = chars_of(line);
    proof {
        lemma_find_char(cs@, ':', 0);
    }
    match find_in(&cs, ':', 0) {
        None => {
            proof {
                reveal_strlit("");
            }
            assert(trimmed(seq![]) =~= seq![]);
            String::new()
        },
        Some(p) => {
            proof {
                lemma_find_char(cs@, ':', p + 1);
            }
            let end = match find_in(&cs, ':', p + 1) {
                Some(q) => q,
                None => cs.len(),
            };
            assert(split_from(cs@, ':', (p + 1) as int)[0] == cs@.subrange(p + 1, end as int));
            let piece = string_between(&cs, p + 1, end);
            trim(piece.as_str()).to_owned()
        },
    }
}

/// The index of the first line of `ls` from `i` on whose lower-case form
/// names the client id header; -1 when there is none.
pub open spec fn id_header_from(ls: Seq<Seq<char>>, i: int) -> int
    decreases ls.len() - i,
{
    if i < 0 || i >= ls.len() {
        -1
    } else if spec_is_id_header(lowercase(ls[i])) {
        i
    } else {
        id_header_from(ls, i + 1)
    }
}

/// The client id a request carries: the value of its first line that, lower
/// cased, starts with "x-cheshire-id:".
pub open spec fn spec_client_id_header(request: Seq<char>) -> Option<Seq<char>> {
    let ls = lines_of(request);
    let k = id_header_from(ls, 0);
    if k < 0 {
        None
    } else {
        Some(spec_header_value(ls[k]))
    }
}

/// The client id a request carries (see `spec_client_id_header`).
pub fn client_id_header(request: &str) -> (r: Option<String>)
    ensures
        match r {
            Some(v) => spec_client_id_header(request@) == Some(v@),
            None => spec_client_id_header(request@).is_none(),
        },
{
    let ls = lines(request);
    let ghost lv = lines_of(request@);
    let mut i: usize = 0;
    while i < ls.len()
        invariant
            i <= ls.len(),
            ls@.map_values(|x: String| x@) == lv,
            lv == lines_of(request@),
            id_header_from(lv, 0) == id_header_from(lv, i as int),
        decreases ls.len() - i,
    {
        assert(lv[i as int] == ls@[i as int]@);
        let lowered = to_lowercase(ls[i].as_str());
        if is_id_header(lowered.as_str()) {
            assert(id_header_from(lv, i as int) == i);
            let v = header_value(ls[i].as_str());
            assert(spec_client_id_header(request@) == Some(v@));
            return Some(v);
        }
        i += 1;
    }
    None
}

// ── Message bodies ─────────────────────────────────────────────────

/// The index of the first blank line ("\r\n\r\n") in `t` at or after `i`,
/// or -1 when there is none.
pub open spec fn find_blank_line(t: Seq<char>, i: int) -> int
    decreases t.len() - i,
{
    if i < 0 || i + 4 > t.len() {
        -1
    } else if t.subrange(i, i + 4) == "\r\n\r\n"@ {
        i
    } else {
        find_blank_line(t, i + 1)
    }
}

/// The body of an HTTP message as `split("\r\n\r\n").nth(1)` gives it: the
/// text after the first blank line up to the next one, or `None` when there
/// is no blank line.
pub open spec fn spec_http_body(t: Seq<char>) -> Option<Seq<char>> {
    let p = find_blank_line(t, 0);
    if p < 0 {
        None
    } else {
        let q = find_blank_line(t, p + 4);
        Some(
            t.subrange(
                p + 4,
                if q < 0 {
                    t.len() as int
                } else {
                    q
                },
            ),
        )
    }
}

/// Whether a blank line starts at `i`.
fn blank_line_at(cs: &Vec<char>, i: usize) -> (r: bool)
    requires
        i + 4 <= cs.len(),
    ensures
        r == (cs@.subrange(i as int, i + 4) == "\r\n\r\n"@),
{
    proof {
        reveal_strlit("\r\n\r\n");
    }
    let r = cs[i] == '\r' && cs[i + 1] == '\n' && cs[i + 2] == '\r' && cs[i + 3] == '\n';
    if r {
        assert(cs@.subrange(i as int, i + 4) =~= "\r\n\r\n"@);
    } else {
        assert(cs@.subrange(i as int, i + 4) != "\r\n\r\n"@) by {
            let w = cs@.subrange(i as int, i + 4);
            if w == "\r\n\r\n"@ {
                assert(w[0] == cs@[i as int] && w[1] == cs@[i + 1] && w[2] == cs@[i + 2] && w[3]
                    == cs@[i + 3]);
            }
        }
    }
    r
}

/// The first blank line at or after `i` (see `find_blank_line`).
fn next_blank_line(cs: &Vec<char>, i: usize) -> (r: Option<usize>)
    requires
        i <= cs.len(),
    ensures
        match r {
            Some(p) => p as int == find_blank_line(cs@, i as int) && i <= p && p + 4 <= cs.len(),
            None => find_blank_line(cs@, i as int) == -1,
        },
{
    let mut j: usize = i;
    while cs.len() - j >= 4
        invariant
            i <= j <= cs.len(),
            find_blank_line(cs@, i as int) == find_blank_line(cs@, j as int),
        decreases cs.len() - j,
    {
        if blank_line_at(cs, j) {
            return Some(j);
        }
        j += 1;
    }
    None
}

/// The body of an HTTP message (see `spec_http_body`).
pub fn http_body(message: &str) -> (r: Option<String>)
    ensures
        match r {
            Some(b) => spec_http_body(message@) == Some(b@),
            None => spec_http_body(message@).is_none(),
        },
{
    let cs = chars_of(message);
    match next_blank_line(&cs, 0) {
        None => None,
        Some(p) => {
            let end = match next_blank_line(&cs, p + 4) {
                Some(q) => q,
                None => cs.len(),
            };
            let mut b = String::new();
            let mut i: usize = p + 4;
            while i < end
                invariant
                    p + 4 <= i <= end <= cs.len(),
                    b@ == cs@.subrange(p + 4, i as int),
                decreases end - i,
            {
                push_char(&mut b, cs[i]);
                assert(cs@.subrange(p + 4, i + 1) =~= cs@.subrange(p + 4, i as int).push(cs@[i as int]));
                i += 1;
            }
            Some(b)
        },
    }
}

/// The tracker request that lists the servers.
pub fn servers_request(host: &str) -> (r: String)
    ensures
        r@ == "GET /servers HTTP/1.1\r\nHost: "@ + host@ + "\r\nConnection: close\r\n\r\n"@,
{
    let mut r = "GET /servers HTTP/1.1\r\nHost: ".to_owned();
    append_str(&mut r, host);
    append_str(&mut r, "\r\nConnection: close\r\n\r\n");
    r
}

/// The tracker request that registers a server described by the JSON `body`,
/// its length counted in bytes.
pub fn register_request(host: &str, body: &str) -> (r: String)
    ensures
        r@ == "POST /register HTTP/1.1\r\nHost: "@ + host@
            + "\r\nContent-Type: application/json\r\nContent-Length: "@ + decimal_of(body.len() as nat)
            + "\r\nConnection: close\r\n\r\n"@ + body@,
{
    let mut r = "POST /register HTTP/1.1\r\nHost: ".to_owned();
    append_str(&mut r, host);
    append_str(&mut r, "\r\nContent-Type: application/json\r\nContent-Length: ");
    push_decimal(&mut r, body.len() as u64);
    append_str(&mut r, "\r\nConnection: close\r\n\r\n");
    append_str(&mut r, body);
    r
}

} // verus!
