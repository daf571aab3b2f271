//! A pseudo-random number from the clock, for the engine's and the quiz's
//! choices: the default hash of the current time's nanoseconds.
use std::collections::hash_map::DefaultHasher;
use std::hash::Hasher;
use std::time::{Duration, SystemTime, SystemTimeError};
use vstd::prelude::*;
use vstd::std_specs::hash::DefaultHasherAdditionalSpecFns;

verus! {

#[verifier::external_type_specification]
#[verifier::external_body]
pub struct ExSystemTime(SystemTime);

#[verifier::external_type_specification]
#[verifier::external_body]
pub struct ExSystemTimeError(SystemTimeError);

/// The current wall-clock time.
/// Trusted: `SystemTime::now`; nothing is claimed of the time it reads.
#[verifier::external_body]
fn system_now() -> SystemTime {
    SystemTime::now()
}

/// How long after the Unix epoch `t` lies, or an error when it lies before.
/// Trusted: `SystemTime::duration_since` with `UNIX_EPOCH`; nothing is claimed
/// of the result, which depends on the time read.
#[verifier::external_body]
fn since_unix_epoch(t: &SystemTime) -> Result<Duration, SystemTimeError> {
    t.duration_since(std::time::UNIX_EPOCH)
}

/// The fractional part of `d`, in nanoseconds.
/// Trusted: `Duration::subsec_nanos`, which std documents as always below one
/// second; nothing more is claimed.
#[verifier::external_body]
fn subsec_nanos(d: &Duration) -> (n: u32)
    ensures
        n < 1_000_000_000,
{
    d.subsec_nanos()
}

/// The bytes of `n`, least significant first.
pub open spec fn le_bytes(n: u32) -> Seq<u8> {
    seq![(n % 256) as u8, ((n / 256) % 256) as u8, ((n / 65536) % 256) as u8, (n / 16777216) as u8]
}

/// The bytes of `n`, most significant first.
pub open spec fn be_bytes(n: u32) -> Seq<u8> {
    seq![(n / 16777216) as u8, ((n / 65536) % 256) as u8, ((n / 256) % 256) as u8, (n % 256) as u8]
}

/// The bytes of `n` in the machine's byte order.
/// Trusted: `u32::to_ne_bytes`, which std documents as the integer's memory
/// representation in native byte order; the claim is that this is the little-
/// or the big-endian order, without saying which.
#[verifier::external_body]
pub(crate) fn ne_bytes(n: u32) -> (b: [u8; 4])
    ensures
        b@ == le_bytes(n) || b@ == be_bytes(n),
{
    n.to_ne_bytes()
}

/// Whether `h` is what the std default hasher gives for `n` written as
/// `u32::hash` writes it: its four bytes in the machine's order, in one write.
pub open spec fn is_hash_of(n: u32, h: u64) -> bool {
    h == DefaultHasher::spec_finish(seq![le_bytes(n)]) || h == DefaultHasher::spec_finish(
        seq![be_bytes(n)],
    )
}

/// Whether `h` is the default hash of some nanosecond count within a second:
/// what `clock_hash` can give.
pub open spec fn is_clock_hash(h: u64) -> bool {
    exists|n: u32| n < 1_000_000_000 && #[trigger] is_hash_of(n, h)
}

/// The nanoseconds within the current second since the Unix epoch; zero when
/// the clock reads a time before the epoch.
pub(crate) fn subsec_nanos_now() -> (n: u32)
    ensures
        n < 1_000_000_000,
{
    let now = system_now();
    match since_unix_epoch(&now) {
        Ok(d) => subsec_nanos(&d),
        Err(_) => 0,
    }
}

/// The std default hasher's hash of a `u32`, written as `u32::hash` writes it:
/// its bytes in the machine's order.
pub(crate) fn default_hash(n: u32) -> (h: u64)
    ensures
        is_hash_of(n, h),
{
    let mut hasher = DefaultHasher::new();
    let bytes = ne_bytes(n);
    hasher.write(&bytes);
    assert(hasher@ =~= seq![bytes@]);
    hasher.finish()
}

/// A pseudo-random value: the default hash of the clock's nanoseconds.
pub(crate) fn clock_hash() -> (h: u64)
    ensures
        is_clock_hash(h),
{
    let n = subsec_nanos_now();
    let h = default_hash(n);
    assert(is_hash_of(n, h));
    h
}

} // verus!
