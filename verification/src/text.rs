//! Small string utilities: conversions between `String`, `&str` and character
//! vectors, and decimal rendering of unsigned integers.

use vstd::prelude::*;
use vstd::utf8::{decode_first_scalar, is_scalar, length_of_first_scalar, valid_first_scalar};

verus! {

/// Collects a vector of characters into a `String`
/// (`FromIterator<char>` for `String`): the result holds exactly those characters.
#[verifier::external_body]
pub(crate) fn string_from_chars(chars: &Vec<char>) -> (s: String)
    ensures
        s@ == chars@,
{
    chars.iter().collect()
}

/// Collects the characters of a string slice into a vector (`str::chars`):
/// the result holds exactly the characters of `s`, in order.
#[verifier::external_body]
pub(crate) fn chars_of(s: &str) -> (v: Vec<char>)
    ensures
        v@ == s@,
{
    s.chars().collect()
}

/// `char::from_u32`: the character whose scalar value is `u`, or `None`
/// when `u` is no Unicode scalar value (a surrogate, or above `0x10FFFF`).
#[verifier::external_body]
fn char_from_scalar(u: u32) -> (r: Option<char>)
    ensures
        r == (if is_scalar(u) {
            Some(u as char)
        } else {
            None
        }),
{
    char::from_u32(u)
}

/// The character whose UTF-8 encoding starts at position `i` of `s`, with the
/// length of that encoding in bytes; `None` when no well-formed encoding of a
/// scalar value starts there.
pub fn decode_char_at(s: &[u8], i: usize) -> (r: Option<(char, usize)>)
    requires
        i < s@.len(),
    ensures
        ({
            let t = s@.subrange(i as int, s@.len() as int);
            match r {
                Some((c, w)) => valid_first_scalar(t) && c == decode_first_scalar(t) as char && w
                    == length_of_first_scalar(t) && 1 <= w <= t.len(),
                None => !valid_first_scalar(t),
            }
        }),
{
    let ghost t = s@.subrange(i as int, s@.len() as int);
    let rest: usize = s.len() - i;
    let b0: u8 = s[i];
    let mut u: u32 = 0;
    let mut w: usize = 0;
    if b0 <= 0x7f {
        u = (b0 & 0x7F) as u32;
        w = 1;
        assert((b0 & 0x7F) as u32 <= 0x7f) by (bit_vector);
    } else if 0xc0 <= b0 && b0 <= 0xdf {
        if rest < 2 || !(0x80 <= s[i + 1] && s[i + 1] <= 0xbf) {
            return None;
        }
        let b1: u8 = s[i + 1];
        u = (((b0 & 0x1F) as u32) << 6) | ((b1 & 0x3f) as u32);
        w = 2;
        assert((((b0 & 0x1F) as u32) << 6) | ((b1 & 0x3f) as u32) <= 0x7ff) by (bit_vector);
    } else if 0xe0 <= b0 && b0 <= 0xef {
        if rest < 3 || !(0x80 <= s[i + 1] && s[i + 1] <= 0xbf) || !(0x80 <= s[i + 2] && s[i + 2]
            <= 0xbf) {
            return None;
        }
        let b1: u8 = s[i + 1];
        let b2: u8 = s[i + 2];
        u = (((b0 & 0x0F) as u32) << 12) | (((b1 & 0x3f) as u32) << 6) | ((b2 & 0x3f) as u32);
        w = 3;
        assert((((b0 & 0x0F) as u32) << 12) | (((b1 & 0x3f) as u32) << 6) | ((b2 & 0x3f) as u32)
            <= 0xffff) by (bit_vector);
    } else if 0xf0 <= b0 && b0 <= 0xf7 {
        if rest < 4 || !(0x80 <= s[i + 1] && s[i + 1] <= 0xbf) || !(0x80 <= s[i + 2] && s[i + 2]
            <= 0xbf) || !(0x80 <= s[i + 3] && s[i + 3] <= 0xbf) {
            return None;
        }
        let b1: u8 = s[i + 1];
        let b2: u8 = s[i + 2];
        let b3: u8 = s[i + 3];
        u = (((b0 & 0x07) as u32) << 18) | (((b1 & 0x3f) as u32) << 12) | (((b2 & 0x3f) as u32)
            << 6) | ((b3 & 0x3f) as u32);
        w = 4;
    } else {
        return None;
    }
    if (w == 2 && u < 0x80) || (w == 3 && u < 0x800) || (w == 4 && (u < 0x10000 || u > 0x10ffff))
        || (0xD800 <= u && u <= 0xDFFF) {
        return None;
    }
    match char_from_scalar(u) {
        Some(c) => Some((c, w)),
        None => None,
    }
}

/// Appends the characters of `s` to `out`.
pub fn push_str_chars(out: &mut Vec<char>, s: &str)
    ensures
        final(out)@ == old(out)@ + s@,
{
    let cs = chars_of(s);
    let mut i: usize = 0;
    while i < cs.len()
        invariant
            0 <= i <= cs@.len(),
            cs@ == s@,
            out@ == old(out)@ + cs@.subrange(0, i as int),
        decreases cs@.len() - i,
    {
        out.push(cs[i]);
        i = i + 1;
        assert(cs@.subrange(0, i as int) == cs@.subrange(0, i - 1).push(cs@[i - 1]));
    }
    assert(cs@.subrange(0, cs@.len() as int) == cs@);
}

/// Whether two string slices hold the same characters.
pub fn str_eq(a: &str, b: &str) -> (r: bool)
    ensures
        r == (a@ == b@),
{
    let x = a.to_owned();
    let y = b.to_owned();
    x == y
}

/// Lexicographic order of character sequences, comparing characters by code
/// point: `a` comes strictly before `b`. On strings this is also the order of
/// their UTF-8 bytes, which is how `str` is ordered.
pub open spec fn chars_less(a: Seq<char>, b: Seq<char>) -> bool
    decreases a.len(),
{
    if b.len() == 0 {
        false
    } else if a.len() == 0 {
        true
    } else if a[0] != b[0] {
        (a[0] as u32) < (b[0] as u32)
    } else {
        chars_less(a.drop_first(), b.drop_first())
    }
}

/// No sequence comes strictly before itself.
pub proof fn lemma_chars_less_irreflexive(a: Seq<char>)
    ensures
        !chars_less(a, a),
    decreases a.len(),
{
    if a.len() > 0 {
        lemma_chars_less_irreflexive(a.drop_first());
    }
}

/// Whether `a` comes strictly before `b` in the order of `str`.
pub fn str_less(a: &str, b: &str) -> (r: bool)
    ensures
        r == chars_less(a@, b@),
{
    let x = chars_of(a);
    let y = chars_of(b);
    let mut i: usize = 0;
    assert(x@.skip(0) =~= x@);
    assert(y@.skip(0) =~= y@);
    while i < x.len() && i < y.len()
        invariant
            0 <= i <= x@.len(),
            i <= y@.len(),
            x@ == a@,
            y@ == b@,
            chars_less(a@, b@) == chars_less(x@.skip(i as int), y@.skip(i as int)),
        decreases x@.len() - i,
    {
        assert(x@.skip(i as int).drop_first() =~= x@.skip(i + 1));
        assert(y@.skip(i as int).drop_first() =~= y@.skip(i + 1));
        if x[i] != y[i] {
            return (x[i] as u32) < (y[i] as u32);
        }
        i = i + 1;
    }
    i < y.len()
}

/// The character of a decimal digit.
pub open spec fn digit_char(d: nat) -> char {
    (d + 48) as char
}

/// The decimal numeral of `n`, without leading zeros.
pub open spec fn decimal_chars(n: nat) -> Seq<char>
    decreases n,
{
    if n < 10 {
        seq![digit_char(n)]
    } else {
        decimal_chars(n / 10).push(digit_char(n % 10))
    }
}

/// Appends the decimal numeral of `n` to `out`.
pub fn push_decimal(out: &mut Vec<char>, n: usize)
    ensures
        final(out)@ == old(out)@ + decimal_chars(n as nat),
    decreases n,
{
    if n >= 10 {
        push_decimal(out, n / 10);
    }
    let d = (n % 10) as u8;
    let c = (48u8 + d) as char;
    assert(c == digit_char((n % 10) as nat));
    out.push(c);
}

} // verus!
