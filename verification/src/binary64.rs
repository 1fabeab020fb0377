//! IEEE-754 binary64 values, carried as their bit patterns.
//!
//! The library never holds a floating-point number itself: a binary64 value is
//! a `u64` whose bits are sign (1), biased exponent (11) and fraction (52).
//! Equality, ordering and the conversion from integers are computed on these
//! bits.

use vstd::prelude::*;

verus! {

/// The bits of positive infinity.
pub const POSITIVE_INFINITY: u64 = 0x7FF0_0000_0000_0000;

/// The bits of negative infinity.
pub const NEGATIVE_INFINITY: u64 = 0xFFF0_0000_0000_0000;

/// The bits of the binary64 value nearest to the decimal numeral `numeral`
/// (a JSON number such as `"12.5"` or `"-0.25"`), or `None` where that value is
/// out of range.
pub uninterp spec fn decimal_to_binary64(numeral: Seq<char>) -> Option<u64>;

/// Calls `serde_json::Number::from_str` and `serde_json::Number::as_f64` on a
/// JSON numeral and hands back the bits of the result. The contract only names
/// the result: it is `None` where serde_json rejects the numeral (it does so for
/// values that overflow binary64) and otherwise the bits of the value that
/// serde_json computes, which with its `float_roundtrip` feature is the
/// binary64 value nearest to the decimal.
#[verifier::external_body]
pub(crate) fn nearest_binary64(numeral: &str) -> (r: Option<u64>)
    ensures
        r == decimal_to_binary64(numeral@),
{
    numeral.parse::<serde_json::Number>().ok().and_then(|n| n.as_f64()).map(|v| v.to_bits())
}

/// `2^e`.
pub open spec fn two_pow(e: nat) -> nat
    decreases e,
{
    if e == 0 {
        1
    } else {
        2 * two_pow((e - 1) as nat)
    }
}

/// The number of binary digits of `m` (0 for 0).
pub open spec fn bit_length(m: nat) -> nat
    decreases m,
{
    if m == 0 {
        0
    } else {
        1 + bit_length(m / 2)
    }
}

/// `m > 0` rounded to 53 significant bits, to nearest with ties to even:
/// a pair `(q, k)` whose value is `q * 2^k`.
pub open spec fn round_to_53_bits(m: nat) -> (nat, nat) {
    let len = bit_length(m);
    if len <= 53 {
        (m, 0)
    } else {
        let k = (len - 53) as nat;
        let d = two_pow(k);
        let q = m / d;
        let r = m % d;
        let up = 2 * r > d || (2 * r == d && q % 2 == 1);
        (if up { q + 1 } else { q }, k)
    }
}

/// The bits of the binary64 value nearest to the integer `n`
/// (|n| <= 2^63), ties to even: what `n as f64` gives for an `i64`.
pub open spec fn binary64_of_int(n: int) -> u64 {
    if n == 0 {
        0
    } else {
        let m = (if n < 0 { -n } else { n }) as nat;
        let (q, k) = round_to_53_bits(m);
        let exponent: int = if q == two_pow(53) { k + 53 as int } else { k + bit_length(q) - 1 };
        let fraction = if q == two_pow(53) {
            0
        } else {
            q * two_pow((53 - bit_length(q)) as nat) - two_pow(52)
        };
        let sign = if n < 0 { two_pow(63) } else { 0 };
        (sign + (exponent + 1023) * two_pow(52) + fraction) as u64
    }
}

proof fn lemma_two_pow_values()
    ensures
        two_pow(52) == 0x10_0000_0000_0000,
        two_pow(53) == 0x20_0000_0000_0000,
        two_pow(63) == 0x8000_0000_0000_0000,
        two_pow(64) == 0x1_0000_0000_0000_0000,
        two_pow(11) == 2048,
{
    reveal_with_fuel(two_pow, 64);
}

proof fn lemma_two_pow_adds(a: nat, b: nat)
    ensures
        two_pow(a + b) == two_pow(a) * two_pow(b),
    decreases a,
{
    if a > 0 {
        let a1 = (a - 1) as nat;
        lemma_two_pow_adds(a1, b);
        assert((a + b) as nat - 1 == a1 + b);
        assert(two_pow(a + b) == 2 * two_pow(a1 + b));
        assert(two_pow(a) == 2 * two_pow(a1));
        assert(two_pow(a) * two_pow(b) == 2 * (two_pow(a1) * two_pow(b))) by (nonlinear_arith)
            requires
                two_pow(a) == 2 * two_pow(a1),
        ;
        assert(two_pow(a + b) == two_pow(a) * two_pow(b));
    } else {
        assert(a + b == b);
        assert(two_pow(a) == 1);
        assert(two_pow(a) * two_pow(b) == two_pow(b));
    }
}

proof fn lemma_two_pow_monotone(a: nat, b: nat)
    requires
        a <= b,
    ensures
        two_pow(a) <= two_pow(b),
        two_pow(a) >= 1,
    decreases b,
{
    if b > a {
        lemma_two_pow_monotone(a, (b - 1) as nat);
    } else if a > 0 {
        lemma_two_pow_monotone((a - 1) as nat, (a - 1) as nat);
    }
}

/// `bit_length(m) == len` exactly when `2^(len-1) <= m < 2^len`.
proof fn lemma_bit_length(m: nat, len: nat)
    requires
        len >= 1,
        two_pow((len - 1) as nat) <= m < two_pow(len),
    ensures
        bit_length(m) == len,
    decreases len,
{
    if len > 1 {
        assert(two_pow((len - 2) as nat) <= m / 2 < two_pow((len - 1) as nat));
        lemma_bit_length(m / 2, (len - 1) as nat);
    } else {
        assert(m == 1);
        assert(bit_length(0) == 0);
    }
}

/// The bits of `n as f64`: the binary64 value nearest to `n`, ties to even.
pub fn binary64_of_i64(n: i64) -> (bits: u64)
    ensures
        bits == binary64_of_int(n as int),
{
    if n == 0 {
        return 0;
    }
    proof {
        lemma_two_pow_values();
    }
    let neg = n < 0;
    let m: u64 = if neg {
        if n == i64::MIN {
            0x8000_0000_0000_0000
        } else {
            (0 - n) as u64
        }
    } else {
        n as u64
    };
    assert(m as int == (if n < 0 { -n } else { n as int }));
    // The bit length of m.
    let mut len: u64 = 0;
    let mut p: u128 = 1;
    while p <= m as u128
        invariant
            p == two_pow(len as nat),
            len <= 64,
            m >= 1,
            m <= 0x8000_0000_0000_0000,
            len >= 1 ==> two_pow((len - 1) as nat) <= m,
        decreases 64 - len,
    {
        proof {
            if len >= 64 {
                lemma_two_pow_values();
                lemma_two_pow_monotone(64, len as nat);
                assert(false);
            }
        }
        p = p * 2;
        len = len + 1;
    }
    assert(len >= 1);
    proof {
        lemma_bit_length(m as nat, len as nat);
    }
    let ghost rounded = round_to_53_bits(m as nat);
    let q: u64;
    let k: u64;
    if len <= 53 {
        q = m;
        k = 0;
    } else {
        let shift = len - 53;
        let mut d: u64 = 1;
        let mut j: u64 = 0;
        while j < shift
            invariant
                j <= shift,
                shift == len - 53,
                len <= 64,
                d == two_pow(j as nat),
                d >= 1,
            decreases shift - j,
        {
            proof {
                lemma_two_pow_monotone(j as nat + 1, 11);
                lemma_two_pow_values();
            }
            d = d * 2;
            j = j + 1;
        }
        let q0 = m / d;
        let r = m % d;
        let up = r > d - r || (r == d - r && q0 % 2 == 1);
        proof {
            lemma_two_pow_adds(shift as nat, 52);
            lemma_two_pow_adds(shift as nat, 53);
            assert(two_pow((len - 1) as nat) == d * two_pow(52));
            assert(two_pow(len as nat) == d * two_pow(53));
            assert(two_pow(52) <= q0 < two_pow(53)) by (nonlinear_arith)
                requires
                    d * two_pow(52) <= m < d * two_pow(53),
                    q0 == m / d,
                    d > 0,
            ;
        }
        q = if up {
            q0 + 1
        } else {
            q0
        };
        k = shift;
    }
    assert(rounded == (q as nat, k as nat));
    if q == 0x20_0000_0000_0000 {
        let exponent = k + 53;
        let sign: u64 = if neg {
            0x8000_0000_0000_0000
        } else {
            0
        };
        return sign + (exponent + 1023) * 0x10_0000_0000_0000;
    }
    // Here 2^52 <= q < 2^53 or q < 2^53 with len <= 53.
    let qlen: u64 = if len <= 53 {
        len
    } else {
        53
    };
    proof {
        if len > 53 {
            lemma_bit_length(q as nat, 53);
        }
    }
    let mut f: u64 = 1;
    let mut j: u64 = 0;
    while j < 53 - qlen
        invariant
            j <= 53 - qlen,
            qlen >= 1,
            qlen <= 53,
            f == two_pow(j as nat),
            f >= 1,
        decreases 53 - qlen - j,
    {
        proof {
            lemma_two_pow_monotone(j as nat + 1, 53);
            lemma_two_pow_values();
        }
        f = f * 2;
        j = j + 1;
    }
    proof {
        lemma_two_pow_adds((53 - qlen) as nat, (qlen - 1) as nat);
        lemma_two_pow_adds((53 - qlen) as nat, qlen as nat);
        assert(two_pow((qlen - 1) as nat) <= q < two_pow(qlen as nat));
        assert(two_pow(52) <= q * f < two_pow(53)) by (nonlinear_arith)
            requires
                two_pow((qlen - 1) as nat) <= q < two_pow(qlen as nat),
                two_pow(52) == f * two_pow((qlen - 1) as nat),
                two_pow(53) == f * two_pow(qlen as nat),
                f > 0,
        ;
    }
    let fraction = q * f - 0x10_0000_0000_0000;
    let exponent = k + qlen - 1;
    let sign: u64 = if neg {
        0x8000_0000_0000_0000
    } else {
        0
    };
    sign + (exponent + 1023) * 0x10_0000_0000_0000 + fraction
}

/// The magnitude bits of a binary64 value (all but the sign).
pub open spec fn magnitude(b: u64) -> int {
    b as int % 0x8000_0000_0000_0000
}

/// Whether the sign bit of a binary64 value is set.
pub open spec fn sign_set(b: u64) -> bool {
    b >= 0x8000_0000_0000_0000
}

/// Whether a binary64 value is a NaN: all exponent bits set and a nonzero
/// fraction.
pub open spec fn is_nan(b: u64) -> bool {
    magnitude(b) > 0x7FF0_0000_0000_0000
}

/// The position of a non-NaN binary64 value on the number line, as an
/// integer: the encoding orders magnitudes, and the sign mirrors them; both
/// zeros sit at 0.
pub open spec fn order_key(b: u64) -> int {
    if sign_set(b) {
        -magnitude(b)
    } else {
        magnitude(b)
    }
}

/// IEEE-754 equality of two binary64 values: neither is a NaN and they denote
/// the same number (so `+0 == -0`).
pub open spec fn binary64_eq(a: u64, b: u64) -> bool {
    !is_nan(a) && !is_nan(b) && order_key(a) == order_key(b)
}

/// IEEE-754 `a < b`.
pub open spec fn binary64_lt(a: u64, b: u64) -> bool {
    !is_nan(a) && !is_nan(b) && order_key(a) < order_key(b)
}

/// Whether a binary64 value is a NaN.
pub fn binary64_is_nan(b: u64) -> (r: bool)
    ensures
        r == is_nan(b),
{
    b % 0x8000_0000_0000_0000 > 0x7FF0_0000_0000_0000
}

/// The [`order_key`] of a binary64 value.
pub fn binary64_order_key(b: u64) -> (k: i128)
    ensures
        k == order_key(b),
{
    let m = (b % 0x8000_0000_0000_0000) as i128;
    if b >= 0x8000_0000_0000_0000 {
        -m
    } else {
        m
    }
}

/// IEEE-754 equality of two binary64 values (`f64 == f64`).
pub fn binary64_equal(a: u64, b: u64) -> (r: bool)
    ensures
        r == binary64_eq(a, b),
{
    !binary64_is_nan(a) && !binary64_is_nan(b) && binary64_order_key(a) == binary64_order_key(b)
}

/// IEEE-754 `a < b` (`f64 < f64`).
pub fn binary64_less(a: u64, b: u64) -> (r: bool)
    ensures
        r == binary64_lt(a, b),
{
    !binary64_is_nan(a) && !binary64_is_nan(b) && binary64_order_key(a) < binary64_order_key(b)
}

} // verus!
