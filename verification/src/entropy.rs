//! Entropy reduction: sixteen sampled bits become a 16-bit accumulator, the
//! accumulator is folded into the half-open range `[0, 10000)` by modulo.
//!
//! The modulo keeps a documented bias: the top slice of the 16-bit range maps
//! non-uniformly onto the decimal range. That skew is an accepted property of
//! the design, not corrected here.

use vstd::prelude::*;
use vstd::arithmetic::power2::pow2;
use vstd::arithmetic::power2::{lemma_pow2_unfold, lemma_pow2_pos, lemma2_to64};
use vstd::bits::lemma_u16_shl_is_mul;
use crate::sampler::{sample, OscillatorHandle};

verus! {

/// The integer a bit sequence denotes, least significant bit first.
pub open spec fn acc_of(bits: Seq<bool>) -> nat
    decreases bits.len(),
{
    if bits.len() == 0 {
        0
    } else {
        acc_of(bits.drop_last()) + if bits.last() {
            pow2((bits.len() - 1) as nat)
        } else {
            0
        }
    }
}

/// A bit sequence denotes less than two to its length.
pub proof fn lemma_acc_of_bound(bits: Seq<bool>)
    ensures
        acc_of(bits) < pow2(bits.len()),
    decreases bits.len(),
{
    if bits.len() == 0 {
        lemma_pow2_pos(0);
        assert(pow2(0) == 1) by {
            lemma2_to64();
        }
    } else {
        lemma_acc_of_bound(bits.drop_last());
        lemma_pow2_unfold(bits.len());
        assert(pow2(bits.len()) == 2 * pow2((bits.len() - 1) as nat));
    }
}

/// Compose sixteen sampled bits into a 16-bit accumulator: bit `i` of the
/// result is the `i`-th draw, so the first draw is least significant.
pub fn assemble_bits(bits: &Vec<bool>) -> (acc: u16)
    requires
        bits@.len() == 16,
    ensures
        acc as nat == acc_of(bits@),
{
    let mut acc: u16 = 0;
    let mut i: usize = 0;
    proof {
        assert(bits@.take(0) =~= Seq::<bool>::empty());
        lemma2_to64();
    }
    while i < 16
        invariant
            i <= 16,
            bits@.len() == 16,
            acc as nat == acc_of(bits@.take(i as int)),
            acc < pow2(i as nat),
        decreases 16 - i,
    {
        proof {
            lemma_acc_of_bound(bits@.take(i as int));
            lemma2_to64();
            lemma_u16_shl_is_mul(1u16, i as u16);
            assert(bits@.take(i as int + 1).drop_last() =~= bits@.take(i as int));
            assert(bits@.take(i as int + 1).last() == bits@[i as int]);
            lemma_pow2_unfold((i + 1) as nat);
        }
        if bits[i] {
            let mask: u16 = 1u16 << (i as u16);
            proof {
                assert(acc | mask == acc + mask) by (bit_vector)
                    requires
                        acc < mask,
                        exists|sh: u16| sh < 16 && mask == (1u16 << sh),
                ;
            }
            acc = acc | mask;
        }
        i = i + 1;
    }
    proof {
        assert(bits@.take(16) =~= bits@);
    }
    acc
}

/// Fold an accumulator into the decimal display range `[0, 10000)`.
pub fn reduce_accumulator(acc: u16) -> (r: u64)
    ensures
        r as nat == (acc as nat) % 10000,
        r < 10000,
{
    (acc % 10000) as u64
}

/// Reduction-bound law: every sequence of sixteen sampled bits reduces to a
/// value in `[0, 10000)`, namely its denoted integer modulo ten thousand.
pub fn random_value_of_bits(bits: &Vec<bool>) -> (r: u64)
    requires
        bits@.len() == 16,
    ensures
        r as nat == acc_of(bits@) % 10000,
        r < 10000,
{
    let acc = assemble_bits(bits);
    reduce_accumulator(acc)
}

/// Draw sixteen bits from the ring oscillator, first draw least significant,
/// and reduce the accumulator to the decimal display range. The handle is
/// consumed and returned, keeping the peripheral single-owner.
pub fn random_generator(ring: OscillatorHandle) -> (r: (OscillatorHandle, u64))
    ensures
        r.1 < 10000,
{
    let mut ring = ring;
    let mut bits: Vec<bool> = Vec::new();
    let mut i: usize = 0;
    while i < 16
        invariant
            i <= 16,
            bits@.len() == i as int,
        decreases 16 - i,
    {
        let drawn = sample(ring);
        ring = drawn.0;
        bits.push(drawn.1);
        i = i + 1;
    }
    let value = random_value_of_bits(&bits);
    (ring, value)
}

} // verus!
