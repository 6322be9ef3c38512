//! Frame construction: the bytes a formatted buffer puts on the wire.
//!
//! Emission walks the buffer left to right, lets every nonzero byte through,
//! and appends the two-byte line terminator LF CR. Each byte is then offered
//! to the output channel once, best-effort; selecting which bytes are offered
//! is the logic proved here.

use vstd::prelude::*;
use crate::formatter::{
    digits_of, fmt_byte, format_u64, lemma_digits_ascii, lemma_format_zero, lemma_no_leading_zeros,
};

verus! {

/// The bytes of a buffer that emission offers to the channel: every nonzero
/// byte, in buffer order.
pub open spec fn visible_bytes(s: Seq<u8>) -> Seq<u8> {
    s.filter(|b: u8| b != 0)
}

/// An all-zero byte sequence has no visible bytes.
pub proof fn lemma_visible_none(s: Seq<u8>)
    requires
        forall|j: int| 0 <= j < s.len() ==> s[j] == 0,
    ensures
        visible_bytes(s) == Seq::<u8>::empty(),
    decreases s.len(),
{
    reveal(Seq::filter);
    if s.len() > 0 {
        lemma_visible_none(s.drop_last());
    }
}

/// In a sequence whose first `m` bytes are zero and whose rest are nonzero,
/// the visible bytes are exactly the rest.
pub proof fn lemma_visible_suffix(s: Seq<u8>, m: int)
    requires
        0 <= m <= s.len(),
        forall|j: int| 0 <= j < m ==> s[j] == 0,
        forall|j: int| m <= j < s.len() ==> s[j] != 0,
    ensures
        visible_bytes(s) == s.skip(m),
    decreases s.len(),
{
    reveal(Seq::filter);
    if s.len() == m {
        lemma_visible_none(s);
        assert(s.skip(m) =~= Seq::<u8>::empty());
    } else {
        lemma_visible_suffix(s.drop_last(), m);
        assert(visible_bytes(s) == visible_bytes(s.drop_last()).push(s.last()));
        assert(s.drop_last().skip(m).push(s.last()) =~= s.skip(m));
    }
}

/// Select the bytes of one frame: the buffer's nonzero bytes in order, then
/// the LF CR terminator. Every frame ends with the terminator pair.
pub fn frame_bytes(buffer: &[u8; 20]) -> (r: Vec<u8>)
    ensures
        r@ == visible_bytes(buffer@) + seq![10u8, 13u8],
        r@.len() >= 2,
        r@[r@.len() - 2] == 10u8,
        r@[r@.len() - 1] == 13u8,
{
    let mut out: Vec<u8> = Vec::new();
    proof {
        reveal(Seq::filter);
        assert(buffer@.take(0) =~= Seq::<u8>::empty());
        assert(visible_bytes(Seq::<u8>::empty()) == Seq::<u8>::empty());
    }
    let mut i: usize = 0;
    while i < 20
        invariant
            i <= 20,
            out@ == visible_bytes(buffer@.take(i as int)),
        decreases 20 - i,
    {
        proof {
            reveal(Seq::filter);
            assert(buffer@.take(i as int + 1).drop_last() =~= buffer@.take(i as int));
            assert(buffer@.take(i as int + 1).last() == buffer@[i as int]);
            if buffer@[i as int] != 0 {
                assert(visible_bytes(buffer@.take(i as int + 1)) == visible_bytes(
                    buffer@.take(i as int),
                ).push(buffer@[i as int]));
            } else {
                assert(visible_bytes(buffer@.take(i as int + 1)) == visible_bytes(
                    buffer@.take(i as int),
                ));
            }
        }
        if buffer[i] != 0 {
            out.push(buffer[i]);
        }
        i = i + 1;
    }
    proof {
        assert(buffer@.take(20) =~= buffer@);
    }
    out.push(10u8);
    out.push(13u8);
    proof {
        assert(out@ =~= visible_bytes(buffer@) + seq![10u8, 13u8]);
    }
    out
}

/// Format a value and frame it. The frame is the value's canonical decimal
/// digits followed by LF CR; zero contributes no digit bytes, so its frame is
/// the bare terminator.
pub fn frame_for_value(v: u64) -> (r: Vec<u8>)
    ensures
        v == 0 ==> r@ == seq![10u8, 13u8],
        v >= 1 ==> r@ == digits_of(v as nat) + seq![10u8, 13u8],
{
    let buf = format_u64(v);
    proof {
        if v == 0 {
            assert forall|j: int| 0 <= j < 20 implies buf@[j] == 0 by {
                lemma_format_zero(j);
            }
            lemma_visible_none(buf@);
            assert(visible_bytes(buf@) + seq![10u8, 13u8] =~= seq![10u8, 13u8]);
        } else {
            lemma_no_leading_zeros(v);
            lemma_digits_ascii(v as nat);
            let ds = digits_of(v as nat);
            let n = ds.len() as int;
            assert forall|j: int| 0 <= j < 20 - n implies buf@[j] == 0 by {
                assert(buf@[j] == fmt_byte(v, j));
                assert(fmt_byte(v, j) == 0);
            }
            assert forall|j: int| 20 - n <= j < 20 implies buf@[j] != 0 by {
                assert(buf@[j] == fmt_byte(v, j));
                assert(fmt_byte(v, j) == ds[j - (20 - n)]);
                assert(48 <= ds[j - (20 - n)] <= 57);
            }
            lemma_visible_suffix(buf@, 20 - n);
            assert forall|k: int| 0 <= k < n implies buf@.skip(20 - n)[k] == ds[k] by {
                assert(buf@[k + 20 - n] == fmt_byte(v, k + 20 - n));
                assert(fmt_byte(v, k + 20 - n) == ds[k]);
            }
            assert(buf@.skip(20 - n) =~= ds);
        }
    }
    frame_bytes(&buf)
}

} // verus!
