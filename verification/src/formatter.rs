//! Fixed-width decimal formatter.
//!
//! A value is rendered into a 20-byte buffer, right-justified: slot `j` holds
//! the digit of decimal weight `10^(19 - j)`. Slots left of the first nonzero
//! digit stay the zero byte, which downstream emission treats as "no digit
//! here". The value zero therefore renders as an all-zero buffer.

use vstd::prelude::*;
use vstd::arithmetic::div_mod::{
    lemma_div_denominator, lemma_basic_div, lemma_fundamental_div_mod,
};

verus! {

/// `10^e`.
pub open spec fn pow10(e: nat) -> nat
    decreases e,
{
    if e == 0 {
        1
    } else {
        10 * pow10((e - 1) as nat)
    }
}

pub proof fn lemma_pow10_pos(e: nat)
    ensures
        pow10(e) >= 1,
    decreases e,
{
    if e > 0 {
        lemma_pow10_pos((e - 1) as nat);
    }
}

/// The raw decimal digit of `v` at buffer slot `j` (weight `10^(19 - j)`).
pub open spec fn raw_digit(v: u64, j: int) -> u8
    recommends
        0 <= j < 20,
{
    (((v as nat) / pow10((19 - j) as nat)) % 10) as u8
}

/// Whether some slot at or left of `j` holds a nonzero digit of `v`.
pub open spec fn started_at(v: u64, j: int) -> bool {
    exists|k: int| 0 <= k <= j && raw_digit(v, k) != 0
}

/// The byte the formatter leaves in slot `j`: an ASCII digit from the first
/// nonzero digit onward, the zero byte before it.
pub open spec fn fmt_byte(v: u64, j: int) -> u8 {
    if started_at(v, j) {
        (raw_digit(v, j) + 48) as u8
    } else {
        0
    }
}

/// Render `num` into a 20-byte buffer: ASCII digits with no leading zeros,
/// zero bytes in every slot left of the first nonzero digit. Zero renders as
/// an all-zero buffer.
pub fn format_u64(num: u64) -> (r: [u8; 20])
    ensures
        forall|j: int| 0 <= j < 20 ==> r[j] == fmt_byte(num, j),
{
    let ghost v: u64 = num;
    let mut n: u64 = num;
    let mut buffer: [u8; 20] = [0; 20];
    let mut k: usize = 0;
    proof {
        assert(pow10(0) == 1);
        assert((v as nat) / 1 == v as nat);
    }
    while k < 20
        invariant
            k <= 20,
            n as nat == (v as nat) / pow10(k as nat),
            forall|j: int| 20 - k <= j < 20 ==> buffer[j] == raw_digit(v, j),
        decreases 20 - k,
    {
        proof {
            lemma_pow10_pos(k as nat);
            lemma_div_denominator(v as int, pow10(k as nat) as int, 10);
            assert(pow10((k + 1) as nat) == pow10(k as nat) * 10);
        }
        buffer[19 - k] = (n % 10) as u8;
        n = n / 10;
        k = k + 1;
    }
    let mut buff: [u8; 20] = [0; 20];
    let mut started: bool = false;
    let mut i: usize = 0;
    while i < 20
        invariant
            i <= 20,
            forall|j: int| 0 <= j < 20 ==> buffer[j] == raw_digit(v, j),
            started == exists|k2: int| 0 <= k2 < i && raw_digit(v, k2) != 0,
            forall|j: int| 0 <= j < i ==> buff[j] == fmt_byte(v, j),
            forall|j: int| i <= j < 20 ==> buff[j] == 0,
        decreases 20 - i,
    {
        proof {
            assert(raw_digit(v, i as int) < 10);
        }
        if buffer[i] != 0 || started {
            proof {
                if buffer[i as int] != 0 {
                    assert(raw_digit(v, i as int) != 0);
                }
                assert(started_at(v, i as int));
            }
            started = true;
            buff[i] = buffer[i] + 48;
        } else {
            proof {
                assert(forall|k2: int| 0 <= k2 <= i ==> raw_digit(v, k2) == 0);
                assert(!started_at(v, i as int));
            }
        }
        i = i + 1;
    }
    buff
}

/// The canonical decimal digits of `v` as ASCII bytes, most significant
/// first: the shortest representation, one digit for values below ten.
pub open spec fn digits_of(v: nat) -> Seq<u8>
    decreases v,
{
    if v < 10 {
        seq![(v + 48) as u8]
    } else {
        digits_of(v / 10).push(((v % 10) + 48) as u8)
    }
}

pub proof fn lemma_pow10_increases(e1: nat, e2: nat)
    requires
        e1 <= e2,
    ensures
        pow10(e1) <= pow10(e2),
    decreases e2,
{
    if e1 < e2 {
        lemma_pow10_increases(e1, (e2 - 1) as nat);
        lemma_pow10_pos((e2 - 1) as nat);
    }
}

pub proof fn lemma_pow10_values()
    ensures
        pow10(4) == 10000,
        pow10(20) == 100000000000000000000,
{
    assert(pow10(0) == 1);
    assert(pow10(1) == 10);
    assert(pow10(2) == 100);
    assert(pow10(3) == 1000);
    assert(pow10(4) == 10000);
    assert(pow10(5) == 100000);
    assert(pow10(6) == 1000000);
    assert(pow10(7) == 10000000);
    assert(pow10(8) == 100000000);
    assert(pow10(9) == 1000000000);
    assert(pow10(10) == 10000000000);
    assert(pow10(11) == 100000000000);
    assert(pow10(12) == 1000000000000);
    assert(pow10(13) == 10000000000000);
    assert(pow10(14) == 100000000000000);
    assert(pow10(15) == 1000000000000000);
    assert(pow10(16) == 10000000000000000);
    assert(pow10(17) == 100000000000000000);
    assert(pow10(18) == 1000000000000000000);
    assert(pow10(19) == 10000000000000000000);
    assert(pow10(20) == 100000000000000000000);
}

/// A value's digit count brackets it between two powers of ten.
pub proof fn lemma_digits_len(v: nat)
    ensures
        1 <= digits_of(v).len(),
        v < pow10(digits_of(v).len()),
        v >= 1 ==> pow10((digits_of(v).len() - 1) as nat) <= v,
    decreases v,
{
    if v < 10 {
        assert(pow10(0) == 1);
        assert(pow10(1) == 10);
    } else {
        lemma_digits_len(v / 10);
        let n = digits_of(v / 10).len();
        let pn = pow10(n) as int;
        let pn1 = pow10((n - 1) as nat) as int;
        lemma_fundamental_div_mod(v as int, 10);
        assert(v < 10 * pn) by (nonlinear_arith)
            requires
                v as int == 10 * ((v as int) / 10) + (v as int) % 10,
                (v as int) % 10 < 10,
                (v as int) / 10 < pn,
        ;
        assert(10 * pn1 <= v) by (nonlinear_arith)
            requires
                v as int == 10 * ((v as int) / 10) + (v as int) % 10,
                (v as int) % 10 >= 0,
                pn1 <= (v as int) / 10,
        ;
    }
}

/// Digit `k` counted from the least significant end is `(v / 10^k) % 10`.
pub proof fn lemma_digits_index(v: nat, k: int)
    requires
        0 <= k < digits_of(v).len(),
    ensures
        digits_of(v)[digits_of(v).len() - 1 - k] == (((v / pow10(k as nat)) % 10) + 48) as u8,
    decreases v,
{
    if v < 10 {
        assert(pow10(0) == 1);
        assert(v / 1 == v);
    } else {
        if k == 0 {
            assert(pow10(0) == 1);
            assert(v / 1 == v);
        } else {
            lemma_digits_index(v / 10, k - 1);
            lemma_pow10_pos((k - 1) as nat);
            lemma_div_denominator(v as int, 10, pow10((k - 1) as nat) as int);
            assert(pow10(k as nat) == 10 * pow10((k - 1) as nat));
        }
    }
}

/// Every canonical digit byte is an ASCII digit.
pub proof fn lemma_digits_ascii(v: nat)
    ensures
        forall|k: int|
            0 <= k < digits_of(v).len() ==> 48 <= #[trigger] digits_of(v)[k] && digits_of(v)[k]
                <= 57,
    decreases v,
{
    if v < 10 {
        assert(digits_of(v) == seq![(v + 48) as u8]);
        assert(digits_of(v)[0] == (v + 48) as u8);
    } else {
        lemma_digits_ascii(v / 10);
        let ds = digits_of(v);
        let prev = digits_of(v / 10);
        assert(ds == prev.push(((v % 10) + 48) as u8));
        assert forall|k: int| 0 <= k < ds.len() implies 48 <= #[trigger] ds[k] && ds[k] <= 57 by {
            if k < prev.len() {
                assert(ds[k] == prev[k]);
            } else {
                assert(ds[k] == ((v % 10) + 48) as u8);
            }
        }
    }
}

/// No-leading-zero law: the formatted buffer of a positive value holds zero
/// bytes strictly left of the canonical digit run, then exactly the canonical
/// ASCII digits of the value, whose first digit is not `'0'`.
pub proof fn lemma_no_leading_zeros(v: u64)
    requires
        v >= 1,
    ensures
        1 <= digits_of(v as nat).len() <= 20,
        forall|j: int|
            0 <= j < 20 - digits_of(v as nat).len() ==> #[trigger] fmt_byte(v, j) == 0,
        forall|j: int|
            20 - digits_of(v as nat).len() <= j < 20 ==> #[trigger] fmt_byte(v, j) == digits_of(
                v as nat,
            )[j - (20 - digits_of(v as nat).len())],
        digits_of(v as nat)[0] != 48,
{
    let ds = digits_of(v as nat);
    let n = ds.len() as int;
    lemma_digits_len(v as nat);
    lemma_pow10_values();
    if n > 20 {
        lemma_pow10_increases(20, (n - 1) as nat);
        assert(false);
    }
    assert forall|j: int| 0 <= j < 20 - n implies raw_digit(v, j) == 0 by {
        lemma_pow10_increases(ds.len(), (19 - j) as nat);
        lemma_basic_div(v as int, pow10((19 - j) as nat) as int);
    }
    let p = pow10((n - 1) as nat) as int;
    let q = (v as int) / p;
    lemma_pow10_pos((n - 1) as nat);
    lemma_fundamental_div_mod(v as int, p);
    assert(1 <= q < 10) by (nonlinear_arith)
        requires
            q == (v as int) / p,
            v as int == p * ((v as int) / p) + (v as int) % p,
            0 <= (v as int) % p < p,
            p <= v as int,
            (v as int) < 10 * p,
            p >= 1,
    ;
    assert(raw_digit(v, 20 - n) as int == q % 10);
    assert(raw_digit(v, 20 - n) != 0);
    assert forall|j: int| 0 <= j < 20 - n implies #[trigger] fmt_byte(v, j) == 0 by {
        assert(forall|k: int| 0 <= k <= j ==> #[trigger] raw_digit(v, k) == 0);
        assert(!started_at(v, j));
    }
    assert forall|j: int| 20 - n <= j < 20 implies #[trigger] fmt_byte(v, j) == ds[j - (20
        - n)] by {
        assert(started_at(v, j)) by {
            assert(0 <= 20 - n <= j && raw_digit(v, 20 - n) != 0);
        }
        lemma_digits_index(v as nat, 19 - j);
        assert(ds[n - 1 - (19 - j)] == ((((v as nat) / pow10((19 - j) as nat)) % 10) + 48) as u8);
        assert(raw_digit(v, j) < 10);
        assert(fmt_byte(v, j) == (raw_digit(v, j) + 48) as u8);
    }
    lemma_digits_index(v as nat, n - 1);
    assert(ds[0] == (q % 10 + 48) as u8);
}

/// Zero-value law: formatting zero leaves every buffer byte zero.
pub proof fn lemma_format_zero(j: int)
    requires
        0 <= j < 20,
    ensures
        fmt_byte(0, j) == 0,
{
    assert forall|k: int| 0 <= k <= j implies #[trigger] raw_digit(0, k) == 0 by {
        lemma_pow10_pos((19 - k) as nat);
        lemma_basic_div(0, pow10((19 - k) as nat) as int);
    }
    assert(!started_at(0, j));
}

/// Bounded-range law: a value below ten thousand never marks a buffer slot
/// left of the final four, so its digit run is at most four bytes.
pub proof fn lemma_small_value_short_run(v: u64, j: int)
    requires
        v < 10000,
        0 <= j < 16,
    ensures
        fmt_byte(v, j) == 0,
{
    lemma_pow10_values();
    assert forall|k: int| 0 <= k <= j implies #[trigger] raw_digit(v, k) == 0 by {
        lemma_pow10_increases(4, (19 - k) as nat);
        lemma_basic_div(v as int, pow10((19 - k) as nat) as int);
    }
    assert(!started_at(v, j));
}

} // verus!
