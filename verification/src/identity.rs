//! Client identity checks.
use vstd::prelude::*;

use crate::clock::{be_bytes, le_bytes, ne_bytes};
use crate::text::{chars_of, push_char, trim, trimmed};
use std::collections::hash_map::DefaultHasher;
use std::hash::Hasher;
use vstd::std_specs::hash::DefaultHasherAdditionalSpecFns;
use vstd::string::StringSliceAdditionalSpecFns;

verus! {

pub open spec fn is_hex_digit(c: char) -> bool {
    ('0' <= c <= '9') || ('a' <= c <= 'f') || ('A' <= c <= 'F')
}

/// A client identity: 64 characters, every one an ASCII hex digit (so also
/// 64 bytes).
pub open spec fn valid_id_chars(cs: Seq<char>) -> bool {
    cs.len() == 64 && forall|i: int| 0 <= i < cs.len() ==> #[trigger] is_hex_digit(cs[i])
}

/// Validate that a string looks like a valid client ID.
pub fn is_valid_client_id(id: &str) -> (r: bool)
    ensures
        r == valid_id_chars(id@),
{
    let cs = chars_of(id);
    if cs.len() != 64 {
        return false;
    }
    let mut i: usize = 0;
    while i < cs.len()
        invariant
            i <= cs.len(),
            cs@ == id@,
            forall|k: int| 0 <= k < i ==> #[trigger] is_hex_digit(cs@[k]),
        decreases cs.len() - i,
    {
        let c = cs[i];
        if !(('0' <= c && c <= '9') || ('a' <= c && c <= 'f') || ('A' <= c && c <= 'F')) {
            assert(!is_hex_digit(id@[i as int]));
            return false;
        }
        i += 1;
    }
    true
}

/// The lower-case hex digit of `d` (below 16).
pub open spec fn hex_char(d: int) -> char {
    if d < 10 {
        (d + 48) as char
    } else {
        (d + 87) as char
    }
}

/// The last `n` hex digits of `h`, most significant first, zeros in front.
pub open spec fn hex_digits(h: nat, n: nat) -> Seq<char>
    decreases n,
{
    if n == 0 {
        seq![]
    } else {
        hex_digits(h / 16, (n - 1) as nat).push(hex_char((h % 16) as int))
    }
}

/// Appends the last `n` hex digits of `h`.
fn push_hex(s: &mut String, h: u64, n: u32)
    ensures
        final(s)@ == old(s)@ + hex_digits(h as nat, n as nat),
    decreases n,
{
    if n == 0 {
        assert(old(s)@ + hex_digits(h as nat, 0) =~= old(s)@);
        return ;
    }
    push_hex(s, h / 16, n - 1);
    let d = (h % 16) as u8;
    let c = if d < 10 {
        (d + 48) as char
    } else {
        (d + 87) as char
    };
    push_char(s, c);
    assert(s@ =~= old(s)@ + hex_digits(h as nat, n as nat));
}

/// A client identity from four hash values: each as 16 lower-case hex digits.
pub fn format_client_id(h1: u64, h2: u64, h3: u64, h4: u64) -> (id: String)
    ensures
        id@ == hex_digits(h1 as nat, 16) + hex_digits(h2 as nat, 16) + hex_digits(h3 as nat, 16)
            + hex_digits(h4 as nat, 16),
{
    let mut id = String::new();
    push_hex(&mut id, h1, 16);
    push_hex(&mut id, h2, 16);
    push_hex(&mut id, h3, 16);
    push_hex(&mut id, h4, 16);
    assert(id@ =~= hex_digits(h1 as nat, 16) + hex_digits(h2 as nat, 16) + hex_digits(h3 as nat, 16)
        + hex_digits(h4 as nat, 16));
    id
}

// ── A new identity ─────────────────────────────────────────────────

/// The `w` bytes of `n`, least significant first.
pub open spec fn le_bytes_of(n: nat, w: nat) -> Seq<u8> {
    Seq::new(w, |i: int| ((n / vstd::arithmetic::power::pow(256, i as nat) as nat) % 256) as u8)
}

/// The `w` bytes of `n`, most significant first.
pub open spec fn be_bytes_of(n: nat, w: nat) -> Seq<u8> {
    le_bytes_of(n, w).reverse()
}

/// Whether `b` is `n` written in `w` bytes in one of the two byte orders.
pub open spec fn bytes_of(n: nat, w: nat, b: Seq<u8>) -> bool {
    b == le_bytes_of(n, w) || b == be_bytes_of(n, w)
}

/// The bytes of `n` in the machine's byte order.
/// Trusted: `u64::to_ne_bytes`, which std documents as the integer's memory
/// representation in native byte order; the claim is that this is the little-
/// or the big-endian order, without saying which.
#[verifier::external_body]
fn ne_bytes_u64(n: u64) -> (b: [u8; 8])
    ensures
        bytes_of(n as nat, 8, b@),
{
    n.to_ne_bytes()
}

/// The bytes of `n` in the machine's byte order.
/// Trusted: `u128::to_ne_bytes`, documented as for `u64` above.
#[verifier::external_body]
fn ne_bytes_u128(n: u128) -> (b: [u8; 16])
    ensures
        bytes_of(n as nat, 16, b@),
{
    n.to_ne_bytes()
}

/// The bytes of `n` in the machine's byte order.
/// Trusted: `usize::to_ne_bytes`, documented as for `u64` above; the claim is
/// that there are four or eight of them, in the little- or big-endian order.
#[verifier::external_body]
fn ne_bytes_usize(n: usize) -> (b: Vec<u8>)
    ensures
        bytes_of(n as nat, 8, b@) || bytes_of(n as nat, 4, b@),
{
    n.to_ne_bytes().to_vec()
}

/// `h` is the first hash of an identity: of the time stamp, the host name
/// (its bytes, then the byte 0xff) and the process id, in the machine's byte
/// order.
pub open spec fn first_hash(timestamp: u128, host: Seq<u8>, pid: u32, h: u64) -> bool {
    exists|a: Seq<u8>, c: Seq<u8>|
        bytes_of(timestamp as nat, 16, a) && (c == le_bytes(pid) || c == be_bytes(pid)) && h
            == DefaultHasher::spec_finish(seq![a, host, seq![0xffu8], c])
}

/// `h` is the second hash of an identity: of the first, the time stamp with
/// the bits of 0xDEADBEEF flipped, and the host name's length in bytes.
pub open spec fn second_hash(h1: u64, timestamp: u128, host_len: nat, h: u64) -> bool {
    exists|a: Seq<u8>, b: Seq<u8>, c: Seq<u8>|
        bytes_of(h1 as nat, 8, a) && bytes_of((timestamp ^ 0xDEADBEEFu128) as nat, 16, b) && (
        bytes_of(host_len, 8, c) || bytes_of(host_len, 4, c)) && h == DefaultHasher::spec_finish(
            seq![a, b, c],
        )
}

/// `h` is the third hash of an identity: of the second, and the process id
/// with the bits of the time stamp's low 64 flipped.
pub open spec fn third_hash(h2: u64, pid: u32, timestamp: u128, h: u64) -> bool {
    exists|a: Seq<u8>, b: Seq<u8>|
        bytes_of(h2 as nat, 8, a) && bytes_of(((pid as u64) ^ (timestamp as u64)) as nat, 8, b)
            && h == DefaultHasher::spec_finish(seq![a, b])
}

/// `h` is the fourth hash of an identity: of the third, then the first.
pub open spec fn fourth_hash(h3: u64, h1: u64, h: u64) -> bool {
    exists|a: Seq<u8>, b: Seq<u8>|
        bytes_of(h3 as nat, 8, a) && bytes_of(h1 as nat, 8, b) && h == DefaultHasher::spec_finish(
            seq![a, b],
        )
}

/// A new client identity from a time stamp in nanoseconds, the host name and
/// the process id: four chained std default hashes of them, each written as
/// 16 lower-case hex digits.
pub fn client_id_from(timestamp: u128, hostname: &str, pid: u32) -> (id: String)
    ensures
        exists|h1: u64, h2: u64, h3: u64, h4: u64|
            #![trigger second_hash(h1, timestamp, hostname.len() as nat, h2), fourth_hash(h3, h1, h4)]
            first_hash(timestamp, hostname.spec_bytes(), pid, h1) && second_hash(
                h1,
                timestamp,
                hostname.len() as nat,
                h2,
            ) && third_hash(h2, pid, timestamp, h3) && fourth_hash(h3, h1, h4) && id@
                == hex_digits(h1 as nat, 16) + hex_digits(h2 as nat, 16) + hex_digits(h3 as nat, 16)
                + hex_digits(h4 as nat, 16),
        valid_id_chars(id@),
{
    let host = hostname.as_bytes();
    let end: [u8; 1] = [0xff];
    let ts = ne_bytes_u128(timestamp);
    let p = ne_bytes(pid);
    let mut hasher = DefaultHasher::new();
    assert(end@ =~= seq![0xffu8]);
    hasher.write(&ts);
    hasher.write(host);
    hasher.write(&end);
    hasher.write(&p);
    assert(hasher@ =~= seq![ts@, host@, end@, p@]);
    assert(hasher@ =~= seq![ts@, hostname.spec_bytes(), seq![0xffu8], p@]);
    let h1 = hasher.finish();
    assert(first_hash(timestamp, hostname.spec_bytes(), pid, h1));

    let a = ne_bytes_u64(h1);
    let b = ne_bytes_u128(timestamp ^ 0xDEADBEEFu128);
    let c = ne_bytes_usize(hostname.len());
    let mut hasher2 = DefaultHasher::new();
    hasher2.write(&a);
    hasher2.write(&b);
    hasher2.write(c.as_slice());
    assert(hasher2@ =~= seq![a@, b@, c@]);
    let h2 = hasher2.finish();
    assert(second_hash(h1, timestamp, hostname.len() as nat, h2));

    let a3 = ne_bytes_u64(h2);
    let b3 = ne_bytes_u64((pid as u64) ^ (#[verifier::truncate] (timestamp as u64)));
    let mut hasher3 = DefaultHasher::new();
    hasher3.write(&a3);
    hasher3.write(&b3);
    assert(hasher3@ =~= seq![a3@, b3@]);
    let h3 = hasher3.finish();
    assert(third_hash(h2, pid, timestamp, h3));

    let a4 = ne_bytes_u64(h3);
    let b4 = ne_bytes_u64(h1);
    let mut hasher4 = DefaultHasher::new();
    hasher4.write(&a4);
    hasher4.write(&b4);
    assert(hasher4@ =~= seq![a4@, b4@]);
    let h4 = hasher4.finish();
    assert(fourth_hash(h3, h1, h4));
    let id = format_client_id(h1, h2, h3, h4);
    proof {
        lemma_hex_id(h1, h2, h3, h4);
    }
    id
}

/// A hex digit is a hex digit.
proof fn lemma_hex_digits(h: nat, n: nat)
    ensures
        hex_digits(h, n).len() == n,
        forall|i: int| 0 <= i < n ==> #[trigger] is_hex_digit(hex_digits(h, n)[i]),
    decreases n,
{
    if n > 0 {
        lemma_hex_digits(h / 16, (n - 1) as nat);
        let d = (h % 16) as int;
        assert(is_hex_digit(hex_char(d)));
    }
}

/// Four hashes written as 16 hex digits each make a valid identity.
proof fn lemma_hex_id(h1: u64, h2: u64, h3: u64, h4: u64)
    ensures
        valid_id_chars(
            hex_digits(h1 as nat, 16) + hex_digits(h2 as nat, 16) + hex_digits(h3 as nat, 16)
                + hex_digits(h4 as nat, 16),
        ),
{
    lemma_hex_digits(h1 as nat, 16);
    lemma_hex_digits(h2 as nat, 16);
    lemma_hex_digits(h3 as nat, 16);
    lemma_hex_digits(h4 as nat, 16);
    let s = hex_digits(h1 as nat, 16) + hex_digits(h2 as nat, 16) + hex_digits(h3 as nat, 16)
        + hex_digits(h4 as nat, 16);
    assert forall|i: int| 0 <= i < s.len() implies #[trigger] is_hex_digit(s[i]) by {
        if i < 16 {
            assert(s[i] == hex_digits(h1 as nat, 16)[i]);
        } else if i < 32 {
            assert(s[i] == hex_digits(h2 as nat, 16)[i - 16]);
        } else if i < 48 {
            assert(s[i] == hex_digits(h3 as nat, 16)[i - 32]);
        } else {
            assert(s[i] == hex_digits(h4 as nat, 16)[i - 48]);
        }
    }
}

/// The identity a stored file holds: its text without surrounding white
/// space, when that is a valid identity.
pub fn stored_client_id(content: &str) -> (r: Option<String>)
    ensures
        match r {
            Some(id) => id@ == trimmed(content@) && valid_id_chars(id@),
            None => !valid_id_chars(trimmed(content@)),
        },
{
    let t = trim(content);
    if is_valid_client_id(t) {
        Some(t.to_owned())
    } else {
        None
    }
}

} // verus!
