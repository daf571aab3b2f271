use vstd::prelude::*;

verus! {

/// Whether square `s` (0..64) is set in the bitboard `b`.
pub open spec fn sq_in(b: u64, s: int) -> bool {
    0 <= s < 64 && b & (1u64 << (s as u64)) != 0
}

pub broadcast proof fn lemma_sq_in_or(a: u64, b: u64, s: int)
    ensures
        #[trigger] sq_in(a | b, s) == (sq_in(a, s) || sq_in(b, s)),
{
    if 0 <= s < 64 {
        let t = s as u64;
        assert((a | b) & (1u64 << t) != 0 <==> (a & (1u64 << t) != 0 || b & (1u64 << t) != 0))
            by (bit_vector)
            requires t < 64;
    }
}

pub broadcast proof fn lemma_sq_in_and(a: u64, b: u64, s: int)
    ensures
        #[trigger] sq_in(a & b, s) == (sq_in(a, s) && sq_in(b, s)),
{
    if 0 <= s < 64 {
        let t = s as u64;
        assert((a & b) & (1u64 << t) != 0 <==> (a & (1u64 << t) != 0 && b & (1u64 << t) != 0))
            by (bit_vector)
            requires t < 64;
    }
}

pub broadcast proof fn lemma_sq_in_not(a: u64, s: int)
    requires
        0 <= s < 64,
    ensures
        #[trigger] sq_in(!a, s) == !sq_in(a, s),
{
    let t = s as u64;
    assert((!a) & (1u64 << t) != 0 <==> !(a & (1u64 << t) != 0))
        by (bit_vector)
        requires t < 64;
}

pub broadcast proof fn lemma_sq_in_single(t: u64, s: int)
    requires
        t < 64,
    ensures
        #[trigger] sq_in(1u64 << t, s) == (s == t),
{
    if 0 <= s < 64 {
        let u = s as u64;
        assert((1u64 << t) & (1u64 << u) != 0 <==> t == u)
            by (bit_vector)
            requires t < 64, u < 64;
    }
}

pub broadcast proof fn lemma_sq_in_zero(s: int)
    ensures
        !(#[trigger] sq_in(0u64, s)),
{
    if 0 <= s < 64 {
        let u = s as u64;
        assert(0u64 & (1u64 << u) == 0) by (bit_vector);
    }
}

pub broadcast proof fn lemma_sq_in_nonzero(a: u64, s: int)
    ensures
        #[trigger] sq_in(a, s) ==> a != 0,
{
    if 0 <= s < 64 {
        let u = s as u64;
        assert(a & (1u64 << u) != 0 ==> a != 0) by (bit_vector);
    }
}

/// The squares set in `b`.
pub open spec fn squares(b: u64) -> Set<int> {
    Set::new(|s: int| sq_in(b, s))
}

/// A bitboard holds at most the 64 squares of the board.
pub proof fn lemma_squares_finite(b: u64)
    ensures
        squares(b).finite(),
        squares(b).len() <= 64,
{
    vstd::set_lib::lemma_int_range(0, 64);
    assert(squares(b).subset_of(vstd::set_lib::set_int_range(0, 64)));
    vstd::set_lib::lemma_len_subset(squares(b), vstd::set_lib::set_int_range(0, 64));
}

pub broadcast group group_bits {
    lemma_sq_in_or,
    lemma_sq_in_and,
    lemma_sq_in_not,
    lemma_sq_in_single,
    lemma_sq_in_zero,
    lemma_sq_in_nonzero,
}

/// The bit of square `sq`: the exec form of a single-square bitboard.
pub fn square_bit(sq: u8) -> (b: u64)
    requires
        sq < 64,
    ensures
        b == 1u64 << (sq as u64),
        forall|s: int| #[trigger] sq_in(b, s) == (s == sq),
{
    proof {
        broadcast use group_bits;
    }
    1u64 << sq
}

} // verus!
