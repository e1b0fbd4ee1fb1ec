//! Conversions between performance-counter ticks and the recording timeline.

use vstd::prelude::*;

verus! {

/// Integer division truncated toward zero, as Rust's `/` on signed integers.
pub open spec fn trunc_div(a: int, b: int) -> int {
    if b > 0 {
        if a >= 0 { a / b } else { -((-a) / b) }
    } else {
        if a >= 0 { -(a / (-b)) } else { (-a) / (-b) }
    }
}

/// Truncating division, characterized: the remainder `a - q * b` is smaller
/// than the divisor in size and never has the opposite sign of `a`.
pub proof fn lemma_trunc_div_rounds_toward_zero(a: int, b: int)
    requires
        b != 0,
    ensures
        a >= 0 ==> 0 <= a - trunc_div(a, b) * b < if b > 0 { b } else { -b },
        a < 0 ==> -(if b > 0 { b } else { -b }) < a - trunc_div(a, b) * b <= 0,
{
    let m = if b > 0 { b } else { -b };
    let n = if a >= 0 { a } else { -a };
    vstd::arithmetic::div_mod::lemma_fundamental_div_mod(n, m);
    vstd::arithmetic::div_mod::lemma_mod_bound(n, m);
    let q = n / m;
    assert(n == m * q + n % m);
    if b > 0 {
        if a >= 0 {
            assert(trunc_div(a, b) * b == m * q) by (nonlinear_arith) requires trunc_div(a, b) == q, m == b;
        } else {
            assert(trunc_div(a, b) * b == -(m * q)) by (nonlinear_arith) requires trunc_div(a, b) == -q, m == b;
        }
    } else {
        if a >= 0 {
            assert(trunc_div(a, b) * b == m * q) by (nonlinear_arith) requires trunc_div(a, b) == -q, m == -b;
        } else {
            assert(trunc_div(a, b) * b == -(m * q)) by (nonlinear_arith) requires trunc_div(a, b) == q, m == -b;
        }
    }
}

/// `qpc` counter ticks at `freq` ticks per second, expressed in 100 ns units:
/// the exact product divided by the frequency, truncated toward zero, then
/// narrowed to 64 bits.
pub open spec fn spec_qpc_to_100ns(qpc: int, freq: int) -> int {
    trunc_div(qpc * 10_000_000, freq) as i64 as int
}

/// Convert a raw performance-counter count to 100 ns units.
///
/// The product is formed in 128 bits, so it cannot overflow for any 64-bit
/// count (a 10 MHz counter overflows a 64-bit product after ~10 days).
pub fn qpc_to_100ns(qpc: i64, freq: i64) -> (r: i64)
    requires
        freq != 0,
    ensures
        r == spec_qpc_to_100ns(qpc as int, freq as int),
{
    let num: i128 = qpc as i128 * 10_000_000i128;
    let q: i128 = if freq > 0 {
        num / (freq as i128)
    } else {
        let d: i128 = -(freq as i128);
        -(num / d)
    };
    assert(q == trunc_div(qpc * 10_000_000, freq as int));
    #[verifier::truncate]
    (q as i64)
}

/// A whole number of seconds' worth of counter ticks converts to exactly that
/// many seconds of 100 ns units, whatever the (non-zero) counter frequency,
/// as long as the result is a 64-bit value: no rounding, and no overflow
/// however long the machine has been up.
pub proof fn lemma_whole_seconds_convert_exactly(seconds: int, freq: int)
    requires
        freq != 0,
        i64::MIN <= seconds * 10_000_000 <= i64::MAX,
    ensures
        spec_qpc_to_100ns(seconds * freq, freq) == seconds * 10_000_000,
{
    let a = seconds * freq * 10_000_000;
    let k = seconds * 10_000_000;
    assert(a == freq * k) by (nonlinear_arith) requires a == seconds * freq * 10_000_000, k == seconds * 10_000_000;
    if freq > 0 {
        if k >= 0 {
            vstd::arithmetic::div_mod::lemma_div_multiples_vanish(k, freq);
            assert(a >= 0) by (nonlinear_arith) requires a == freq * k, freq > 0, k >= 0;
        } else {
            assert(-a == freq * (-k)) by (nonlinear_arith) requires a == freq * k;
            vstd::arithmetic::div_mod::lemma_div_multiples_vanish(-k, freq);
            assert(a < 0) by (nonlinear_arith) requires a == freq * k, freq > 0, k < 0;
        }
    } else {
        if k >= 0 {
            assert(-a == (-freq) * k) by (nonlinear_arith) requires a == freq * k;
            vstd::arithmetic::div_mod::lemma_div_multiples_vanish(k, -freq);
            if k > 0 {
                assert(a < 0) by (nonlinear_arith) requires a == freq * k, freq < 0, k > 0;
            }
        } else {
            assert(a == (-freq) * (-k)) by (nonlinear_arith) requires a == freq * k;
            vstd::arithmetic::div_mod::lemma_div_multiples_vanish(-k, -freq);
            assert(a > 0) by (nonlinear_arith) requires a == freq * k, freq < 0, k < 0;
        }
    }
    assert(trunc_div(a, freq) == k);
}

/// With a positive counter frequency, a later counter reading never converts
/// to an earlier time (as long as both results are 64-bit values).
pub proof fn lemma_conversion_keeps_counter_order(q1: int, q2: int, freq: int)
    requires
        freq > 0,
        q1 <= q2,
        i64::MIN <= trunc_div(q1 * 10_000_000, freq) <= i64::MAX,
        i64::MIN <= trunc_div(q2 * 10_000_000, freq) <= i64::MAX,
    ensures
        spec_qpc_to_100ns(q1, freq) <= spec_qpc_to_100ns(q2, freq),
{
    let a = q1 * 10_000_000;
    let b = q2 * 10_000_000;
    assert(a <= b);
    if a >= 0 {
        vstd::arithmetic::div_mod::lemma_div_is_ordered(a, b, freq);
    } else if b >= 0 {
        vstd::arithmetic::div_mod::lemma_div_pos_is_pos(-a, freq);
        vstd::arithmetic::div_mod::lemma_div_pos_is_pos(b, freq);
    } else {
        vstd::arithmetic::div_mod::lemma_div_is_ordered(-b, -a, freq);
    }
}

} // verus!
