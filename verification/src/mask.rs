//! Readiness bitmasks.
//!
//! Producer and consumer worker pools hand work to one another through
//! an atomic machine word treated as a bitmask indexed by worker id: a
//! worker publishes readiness by setting its own bit, and the consumer
//! of the pool waits for the word to equal the full mask before it
//! clears the word and takes the batch. This module holds the word
//! arithmetic of that handshake; the atomic spinning itself is done by
//! the caller, one word per (job, direction).

use vstd::prelude::*;

verus! {

/// Whether bit `i` of `mask` is set.
pub open spec fn get_bit(mask: u64, i: u64) -> bool {
    mask & (1u64 << i) != 0
}

/// The value a readiness word holds when every worker of a pool of `n`
/// has set its bit: bits `0..n` set, all higher bits clear.
pub open spec fn spec_full_mask(n: u64) -> u64
    recommends
        n <= 63,
{
    ((1u64 << n) - 1) as u64
}

/// The "all of `n` workers ready" word, `(1 << n) - 1`.
pub fn full_mask(n: u64) -> (r: u64)
    requires
        n <= 63,
    ensures
        r == spec_full_mask(n),
        forall|i: u64| i < n ==> get_bit(r, i),
        forall|i: u64| n <= i < 64 ==> !get_bit(r, i),
{
    proof {
        assert(n <= 63 ==> 1u64 << n >= 1) by (bit_vector);
    }
    let r = (1u64 << n) - 1;
    proof {
        assert forall|i: u64| i < n implies #[trigger] get_bit(r, i) by {
            assert(r & (1u64 << i) != 0) by (bit_vector)
                requires
                    n <= 63,
                    i < n,
                    r == ((1u64 << n) - 1) as u64,
            ;
        }
        assert forall|i: u64| n <= i < 64 implies !(#[trigger] get_bit(r, i)) by {
            assert(r & (1u64 << i) == 0) by (bit_vector)
                requires
                    n <= 63,
                    n <= i < 64,
                    r == ((1u64 << n) - 1) as u64,
            ;
        }
    }
    r
}

/// Worker `i` publishes its readiness: its own bit is set and no other
/// bit moves. Because the worker's bit is clear beforehand, setting it
/// by addition (as a fetch-add of `1 << i` does) and setting it by a
/// bitwise or coincide; the result is stated both ways.
pub fn publish(mask: u64, i: u64) -> (r: u64)
    requires
        i <= 63,
        !get_bit(mask, i),
    ensures
        r == mask | (1u64 << i),
        r == mask + (1u64 << i),
        get_bit(r, i),
        forall|j: u64| j <= 63 && j != i ==> get_bit(r, j) == get_bit(mask, j),
{
    proof {
        let m = mask;
        assert(i <= 63 && m & (1u64 << i) == 0 ==> (m | (1u64 << i)) == m + (1u64 << i))
            by (bit_vector);
        assert(i <= 63 ==> (m | (1u64 << i)) & (1u64 << i) != 0) by (bit_vector);
        assert forall|j: u64| j <= 63 && j != i implies get_bit(m | (1u64 << i), j) == get_bit(
            m,
            j,
        ) by {
            assert(i <= 63 && j <= 63 && j != i ==> ((m | (1u64 << i)) & (1u64 << j)) == (m & (
            1u64 << j))) by (bit_vector);
        }
    }
    mask | (1u64 << i)
}

/// Whether worker `i`'s bit is clear: the signal a worker spins on
/// before it refills or retransmits its share of a job.
pub fn bit_is_clear(mask: u64, i: u64) -> (r: bool)
    requires
        i <= 63,
    ensures
        r == !get_bit(mask, i),
{
    mask & (1u64 << i) == 0
}

/// Whether all `n` workers of a pool have published.
pub fn is_full(mask: u64, n: u64) -> (r: bool)
    requires
        n <= 63,
    ensures
        r == (mask == spec_full_mask(n)),
{
    mask == full_mask(n)
}

/// A cleared word has no bit set.
pub proof fn lemma_zero_mask_clear(i: u64)
    ensures
        !get_bit(0u64, i),
{
    assert(0u64 & (1u64 << i) == 0) by (bit_vector);
}

/// Every bit below the pool width is set in the full mask.
pub proof fn lemma_full_mask_bits(n: u64, i: u64)
    requires
        n <= 63,
        i < n,
    ensures
        get_bit(spec_full_mask(n), i),
{
    assert(n <= 63 && i < n ==> (((1u64 << n) - 1) as u64) & (1u64 << i) != 0) by (bit_vector);
}

/// A partial mask always has a clear bit below the pool width: some
/// worker of the pool can still publish.
pub proof fn lemma_not_full_has_clear_bit(mask: u64, n: u64)
    requires
        1 <= n,
        n <= 63,
        mask <= spec_full_mask(n),
        mask != spec_full_mask(n),
    ensures
        exists|i: u64| i < n && !get_bit(mask, i),
    decreases n,
{
    if !get_bit(mask, (n - 1) as u64) {
        assert(((n - 1) as u64) < n && !get_bit(mask, (n - 1) as u64));
    } else if n == 1 {
        assert(false) by (bit_vector)
            requires
                mask & (1u64 << 0u64) != 0,
                mask <= ((1u64 << 1u64) - 1) as u64,
                mask != ((1u64 << 1u64) - 1) as u64,
        ;
    } else {
        let lower = ((1u64 << ((n - 1) as u64)) - 1) as u64;
        let m2 = mask & lower;
        assert(m2 <= lower && m2 != lower) by (bit_vector)
            requires
                2 <= n <= 63,
                lower == ((1u64 << ((n - 1) as u64)) - 1) as u64,
                m2 == mask & lower,
                mask & (1u64 << ((n - 1) as u64)) != 0,
                mask <= ((1u64 << n) - 1) as u64,
                mask != ((1u64 << n) - 1) as u64,
        ;
        lemma_not_full_has_clear_bit(m2, (n - 1) as u64);
        let i = choose|i: u64| i < (n - 1) as u64 && !get_bit(m2, i);
        assert(mask & (1u64 << i) == 0) by (bit_vector)
            requires
                i < (n - 1) as u64,
                n <= 63,
                lower == ((1u64 << ((n - 1) as u64)) - 1) as u64,
                m2 == mask & lower,
                m2 & (1u64 << i) == 0,
        ;
        assert(i < n && !get_bit(mask, i));
    }
}

} // verus!
