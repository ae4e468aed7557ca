//! Integer → ASCII-decimal conversion.
//!
//! [`dec_digits`] is the mathematical model shared by both encoders: the
//! canonical decimal rendering of an unsigned value, most significant digit
//! first, with no leading zeros. [`write_usize`] is the unbounded general
//! emitter used when a value does not fit the largest fixed tier.

use vstd::prelude::*;

use crate::buffer::bytes_view;
use crate::buffer::put_u8;

verus! {

/// ASCII code of the digit `'0'`.
pub const DIGITS_START: u8 = 48;

/// The ASCII byte of the decimal digit `d` (meaningful for `d < 10`).
pub open spec fn digit_byte(d: nat) -> u8 {
    (DIGITS_START + d) as u8
}

/// The canonical decimal rendering of `n`: its digits as ASCII bytes, most
/// significant first, with no leading zeros (`n == 0` renders as the single
/// byte `'0'`).
pub open spec fn dec_digits(n: nat) -> Seq<u8>
    decreases n,
{
    if n < 10 {
        seq![digit_byte(n)]
    } else {
        dec_digits(n / 10).push(digit_byte(n % 10))
    }
}

/// `10^k`.
pub open spec fn pow10(k: nat) -> nat
    decreases k,
{
    if k == 0 {
        1
    } else {
        10 * pow10((k - 1) as nat)
    }
}

pub proof fn lemma_pow10_pos(k: nat)
    ensures
        pow10(k) >= 1,
    decreases k,
{
    if k > 0 {
        lemma_pow10_pos((k - 1) as nat);
    }
}

pub proof fn lemma_pow10_increases(j: nat, k: nat)
    requires
        j <= k,
    ensures
        pow10(j) <= pow10(k),
    decreases k,
{
    if j < k {
        lemma_pow10_increases(j, (k - 1) as nat);
        lemma_pow10_pos((k - 1) as nat);
    }
}

/// The decimal rendering is canonical: at least one digit, every byte an
/// ASCII digit, no leading zero except for the single digit of zero itself,
/// and exactly `⌈log10(n+1)⌉` digits (1 for `n == 0`), stated as the
/// power-of-ten bracket in the last two clauses.
pub proof fn lemma_dec_digits_canonical(n: nat)
    ensures
        dec_digits(n).len() >= 1,
        forall|i: int|
            0 <= i < dec_digits(n).len() ==> DIGITS_START <= #[trigger] dec_digits(n)[i]
                <= DIGITS_START + 9,
        n == 0 ==> dec_digits(n) == seq![DIGITS_START],
        n >= 1 ==> dec_digits(n)[0] != DIGITS_START,
        n < pow10(dec_digits(n).len()),
        n >= 1 ==> pow10((dec_digits(n).len() - 1) as nat) <= n,
    decreases n,
{
    reveal_with_fuel(pow10, 3);
    if n < 10 {
        assert(dec_digits(n) == seq![digit_byte(n)]);
        if n == 0 {
            assert(dec_digits(n) =~= seq![DIGITS_START]);
        }
        assert(pow10(1) == 10);
    } else {
        let m = n / 10;
        lemma_dec_digits_canonical(m);
        vstd::arithmetic::div_mod::lemma_fundamental_div_mod(n as int, 10);
        let lm = dec_digits(m).len();
        assert(dec_digits(n) == dec_digits(m).push(digit_byte(n % 10)));
        assert(dec_digits(n)[0] == dec_digits(m)[0]);
        assert forall|i: int|
            0 <= i < dec_digits(n).len() implies DIGITS_START <= #[trigger] dec_digits(n)[i]
            <= DIGITS_START + 9 by {
            if i < lm {
                assert(dec_digits(n)[i] == dec_digits(m)[i]);
            }
        }
        // n == 10 * m + n % 10 with m < pow10(lm), so n < 10 * pow10(lm)
        assert(n < pow10((lm + 1) as nat));
        // m >= 1 and pow10(lm - 1) <= m, so pow10(lm) <= 10 * m <= n
        assert(pow10(lm) <= n);
    }
}

/// `n` has at most `k` decimal digits when `n < 10^k`.
pub proof fn lemma_dec_digits_len_le(n: nat, k: nat)
    requires
        n < pow10(k),
        k >= 1,
    ensures
        dec_digits(n).len() <= k,
{
    lemma_dec_digits_canonical(n);
    let l = dec_digits(n).len();
    if n >= 1 && l > k {
        lemma_pow10_increases(k, (l - 1) as nat);
        assert(false);
    }
}

/// Any machine-word value renders in at most 20 digits (the decimal width of
/// a 64-bit unsigned integer).
pub proof fn lemma_dec_digits_fits(n: nat)
    requires
        n <= usize::MAX,
    ensures
        dec_digits(n).len() <= 20,
{
    reveal_with_fuel(pow10, 21);
    assert(pow10(20) == 100000000000000000000nat);
    assert(u64::MAX < pow10(20));
    assert(usize::MAX <= u64::MAX);
    lemma_dec_digits_len_le(n, 20);
}

proof fn lemma_take_last<A>(s: Seq<A>, j: int)
    requires
        0 < j <= s.len(),
    ensures
        s.take(j).drop_last() == s.take(j - 1),
        s.take(j).last() == s[j - 1],
{
    assert(s.take(j).drop_last() =~= s.take(j - 1));
}

/// Appends the canonical decimal rendering of `n` to the buffer.
///
/// Digits are peeled off least-significant-first into a bounded scratch
/// vector (at most 20 entries), then replayed in reverse so the buffer
/// receives them most significant first.
pub fn write_usize(n: usize, bytes: &mut bytes::BytesMut)
    requires
        bytes_view(*old(bytes)).len() + 20 <= usize::MAX,
    ensures
        bytes_view(*final(bytes)) == bytes_view(*old(bytes)) + dec_digits(n as nat),
{
    let ghost base = bytes_view(*old(bytes));
    let ghost dd = dec_digits(n as nat);
    let ghost len_d = dd.len() as int;
    proof {
        lemma_dec_digits_fits(n as nat);
        assert(dd.take(len_d) =~= dd);
    }

    let mut n = n;

    // scratch for all digits but the most significant, least significant first
    let mut buf: Vec<u8> = Vec::new();

    while n > 9
        invariant
            bytes_view(*bytes) == base,
            base.len() + 20 <= usize::MAX,
            len_d == dd.len() as int,
            len_d <= 20,
            dec_digits(n as nat) == dd.take(len_d - buf@.len()),
            buf@.len() < len_d,
            forall|k: int| 0 <= k < buf@.len() ==> buf@[k] == dd[len_d - 1 - k],
        decreases n,
    {
        proof {
            let j = len_d - buf@.len();
            lemma_take_last(dd, j);
            assert(dec_digits(n as nat) == dec_digits((n / 10) as nat).push(
                digit_byte((n % 10) as nat)));
            assert(dec_digits((n / 10) as nat) =~= dec_digits(n as nat).drop_last());
            assert(dd[j - 1] == digit_byte((n % 10) as nat));
        }

        // "pop" the least-significant digit
        let lsd: u8 = (n % 10) as u8;

        // remove the lsd from n
        n = n / 10;

        buf.push(DIGITS_START + lsd);
    }

    proof {
        assert(dec_digits(n as nat) == seq![digit_byte(n as nat)]);
        assert(len_d - buf@.len() == 1);
        assert(dd[0] == digit_byte(n as nat));
    }

    // put msd to the output buffer
    put_u8(bytes, DIGITS_START + (n as u8));

    proof {
        assert(bytes_view(*bytes) =~= base + dd.take(1));
    }

    // put, in reverse (msd to lsd), the remaining digits
    let ghost top = buf@.len() as int;
    let mut i: usize = buf.len();
    while i > 0
        invariant
            top == buf@.len() as int,
            len_d == dd.len() as int,
            len_d == top + 1,
            len_d <= 20,
            i <= top,
            base.len() + 20 <= usize::MAX,
            forall|k: int| 0 <= k < buf@.len() ==> buf@[k] == dd[len_d - 1 - k],
            bytes_view(*bytes) == base + dd.take(1 + top - i),
        decreases i,
    {
        i -= 1;
        proof {
            assert(dd[top - i] == buf@[i as int]);
        }
        put_u8(bytes, buf[i]);
        proof {
            assert(bytes_view(*bytes) =~= base + dd.take(1 + top - i));
        }
    }

    proof {
        assert(bytes_view(*bytes) == base + dd.take(len_d));
    }
}

} // verus!
