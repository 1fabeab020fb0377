//! `ISSUBSET` / `ISSUPERSET` for IPv4/IPv6 addresses and CIDR ranges.
//!
//! Addresses are read as the standard library reads `IpAddr` from text:
//! IPv4 as four dot-separated decimal octets of at most three digits without
//! leading zeros; IPv6 as up to eight colon-separated groups of at most four
//! hexadecimal digits, with at most one `::` standing for one or more zero
//! groups and an optional embedded IPv4 address in the last two groups. A
//! prefix length is read as a `u32` (an optional `+`, then decimal digits).

use vstd::arithmetic::power2::{
    lemma2_to64, lemma_pow2_adds, lemma_pow2_pos, lemma_pow2_strictly_increases, lemma_pow2_unfold, pow2,
};
use vstd::arithmetic::div_mod::{lemma_div_denominator, lemma_div_multiples_vanish_quotient};
use vstd::bits::lemma_u128_shr_is_div;
use vstd::prelude::*;

use crate::text::chars_of;

verus! {

// ---------------------------------------------------------------------------
// Reading numbers

/// The value of `c` as a digit in base `radix` (`char::to_digit`).
pub open spec fn char_digit(c: char, radix: nat) -> Option<nat> {
    let n = c as u32;
    let v: int = if 48 <= n <= 57 {
        n - 48
    } else if 97 <= n <= 122 {
        n - 97 + 10
    } else if 65 <= n <= 90 {
        n - 65 + 10
    } else {
        36
    };
    if v < radix {
        Some(v as nat)
    } else {
        None
    }
}

/// The number of consecutive base-`radix` digits at position `p`.
pub open spec fn digit_run(s: Seq<char>, p: int, radix: nat) -> nat
    decreases s.len() - p,
{
    if 0 <= p < s.len() && char_digit(s[p], radix) is Some {
        1 + digit_run(s, p + 1, radix)
    } else {
        0
    }
}

/// The value of the `k` digits at position `p`.
pub open spec fn run_value(s: Seq<char>, p: int, k: nat, radix: nat) -> nat
    decreases k,
{
    if k == 0 {
        0
    } else {
        run_value(s, p, (k - 1) as nat, radix) * radix + match char_digit(s[p + k - 1], radix) {
            Some(d) => d,
            None => 0,
        }
    }
}

/// A number at position `p`: the maximal run of base-`radix` digits there,
/// which must have between 1 and `max_digits` digits, a value of at most
/// `max_value`, and, unless `zero_ok`, no leading zero before further digits.
/// The value and the position after it.
pub open spec fn number_at(s: Seq<char>, p: int, radix: nat, max_digits: nat, zero_ok: bool, max_value: nat) -> Option<(nat, int)> {
    let k = digit_run(s, p, radix);
    if k == 0 || k > max_digits {
        None
    } else if run_value(s, p, k, radix) > max_value {
        None
    } else if !zero_ok && s[p] == '0' && k > 1 {
        None
    } else {
        Some((run_value(s, p, k, radix), p + k))
    }
}

/// A number after a separator character, or at `p` itself for the first item
/// of a list.
pub open spec fn item_number(s: Seq<char>, p: int, first: bool, sep: char, radix: nat, max_digits: nat, zero_ok: bool, max_value: nat) -> Option<(nat, int)> {
    if first {
        number_at(s, p, radix, max_digits, zero_ok, max_value)
    } else if 0 <= p < s.len() && s[p] == sep {
        number_at(s, p + 1, radix, max_digits, zero_ok, max_value)
    } else {
        None
    }
}

/// An octet of an IPv4 address.
pub open spec fn octet(s: Seq<char>, p: int, first: bool) -> Option<(nat, int)> {
    item_number(s, p, first, '.', 10, 3, false, 255)
}

/// An IPv4 address at `p`: its 32-bit value and the position after it.
pub open spec fn ipv4_at(s: Seq<char>, p: int) -> Option<(nat, int)> {
    match octet(s, p, true) {
        None => None,
        Some((a, p1)) => match octet(s, p1, false) {
            None => None,
            Some((b, p2)) => match octet(s, p2, false) {
                None => None,
                Some((c, p3)) => match octet(s, p3, false) {
                    None => None,
                    Some((d, p4)) => Some((a * 16777216 + b * 65536 + c * 256 + d, p4)),
                },
            },
        },
    }
}

/// An embedded IPv4 address in an IPv6 address, after a `:` unless first.
pub open spec fn item_ipv4(s: Seq<char>, p: int, first: bool) -> Option<(nat, int)> {
    if first {
        ipv4_at(s, p)
    } else if 0 <= p < s.len() && s[p] == ':' {
        ipv4_at(s, p + 1)
    } else {
        None
    }
}

/// The colon-separated groups of an IPv6 address read from position `p`,
/// item `i` of at most `limit`: an embedded IPv4 address (two groups) is tried
/// first while two groups are left, then a group of up to four hex digits;
/// reading stops at the first item that cannot be read. The groups, the
/// position after them, and whether an IPv4 address ended them.
pub open spec fn groups_at(s: Seq<char>, p: int, i: nat, limit: nat) -> (Seq<nat>, int, bool)
    decreases limit - i,
{
    if i >= limit {
        (Seq::empty(), p, false)
    } else {
        let v4 = if i + 1 < limit {
            item_ipv4(s, p, i == 0)
        } else {
            None
        };
        match v4 {
            Some((a, q)) => (seq![a / 65536, a % 65536], q, true),
            None => match item_number(s, p, i == 0, ':', 16, 4, true, 65535) {
                None => (Seq::empty(), p, false),
                Some((g, q)) => {
                    let rest = groups_at(s, q, i + 1, limit);
                    (seq![g] + rest.0, rest.1, rest.2)
                },
            },
        }
    }
}

/// An IPv6 address at `p`: its eight groups and the position after it. Fewer
/// than eight groups must be followed by `::` (not after an embedded IPv4
/// address) and the groups after it; the `::` stands for the missing groups,
/// as zeros.
pub open spec fn ipv6_at(s: Seq<char>, p: int) -> Option<(Seq<nat>, int)> {
    let head = groups_at(s, p, 0, 8);
    if head.0.len() == 8 {
        Some((head.0, head.1))
    } else if head.2 {
        None
    } else if 0 <= head.1 && head.1 + 1 < s.len() && s[head.1] == ':' && s[head.1 + 1] == ':' {
        let tail = groups_at(s, head.1 + 2, 0, (7 - head.0.len()) as nat);
        let zeros = Seq::new((8 - head.0.len() - tail.0.len()) as nat, |j: int| 0nat);
        Some((head.0 + zeros + tail.0, tail.1))
    } else {
        None
    }
}

/// The value of a sequence of 16-bit groups, most significant first.
pub open spec fn groups_value(g: Seq<nat>) -> nat
    decreases g.len(),
{
    if g.len() == 0 {
        0
    } else {
        groups_value(g.drop_last()) * 65536 + g.last()
    }
}

/// How a whole string reads as an IP address: whether it is IPv6, and its
/// value (32-bit for IPv4, 128-bit for IPv6). A string that starts with an
/// IPv4 address is read as IPv4 only.
#[verifier::opaque]
pub open spec fn ip_of(s: Seq<char>) -> Option<(bool, nat)> {
    match ipv4_at(s, 0) {
        Some((a, q)) => if q == s.len() {
            Some((false, a))
        } else {
            None
        },
        None => match ipv6_at(s, 0) {
            Some((g, q)) => if q == s.len() {
                Some((true, groups_value(g)))
            } else {
                None
            },
            None => None,
        },
    }
}

/// How a prefix length reads (`u32::from_str`): an optional `+`, then one or
/// more decimal digits. Only its value matters here.
pub open spec fn decimal_of(t: Seq<char>) -> Option<nat> {
    let d = if t.len() > 0 && t[0] == '+' {
        t.drop_first()
    } else {
        t
    };
    if d.len() > 0 && digit_run(d, 0, 10) == d.len() {
        Some(run_value(d, 0, d.len(), 10))
    } else {
        None
    }
}

// ---------------------------------------------------------------------------
// Networks

/// A network: an address widened to 128 bits, a prefix length out of 128, and
/// whether it is IPv6 (families are never mixed). An IPv4 address sits in the
/// low 32 bits, so its prefix length is 96 more than written.
#[derive(Debug, Clone, Copy, PartialEq, Eq, Structural)]
pub struct Network {
    pub bits: u128,
    pub prefix: u32,
    pub is_v6: bool,
}

/// The position of the first `/` at or after `i`.
pub open spec fn slash_from(s: Seq<char>, i: int) -> Option<int>
    decreases s.len() - i,
{
    if i < 0 || i >= s.len() {
        None
    } else if s[i] == '/' {
        Some(i)
    } else {
        slash_from(s, i + 1)
    }
}

/// The position of the first `/` in a string.
pub open spec fn slash_index(s: Seq<char>) -> Option<int> {
    slash_from(s, 0)
}

/// How a string reads as a network: `"addr"` or `"addr/prefix"`. A bare
/// address has the full prefix length (32 for IPv4, 128 for IPv6); a written
/// prefix may not exceed it.
pub open spec fn network_of(s: Seq<char>) -> Option<Network> {
    let (addr, pre) = match slash_index(s) {
        Some(i) => (s.subrange(0, i), Some(s.subrange(i + 1, s.len() as int))),
        None => (s, None),
    };
    match ip_of(addr) {
        None => None,
        Some((v6, bits)) => {
            let full: nat = if v6 {
                128
            } else {
                32
            };
            let prefix: Option<nat> = match pre {
                None => Some(full),
                Some(t) => match decimal_of(t) {
                    Some(v) => if v <= full {
                        Some(v)
                    } else {
                        None
                    },
                    None => None,
                },
            };
            match prefix {
                None => None,
                Some(p) => Some(
                    Network {
                        bits: bits as u128,
                        prefix: (if v6 {
                            p
                        } else {
                            p + 96
                        }) as u32,
                        is_v6: v6,
                    },
                ),
            }
        },
    }
}

/// `bits` with all but its top `prefix` bits (out of 128) cleared.
pub open spec fn masked_value(bits: u128, prefix: u32) -> nat {
    let k: nat = if prefix >= 128 {
        0
    } else {
        (128 - prefix) as nat
    };
    (bits as nat / pow2(k)) * pow2(k)
}

/// Whether network `a` lies within network `b`: the same family, at least as
/// long a prefix, and the same top `b.prefix` bits.
pub open spec fn network_within(a: Network, b: Network) -> bool {
    a.is_v6 == b.is_v6 && a.prefix >= b.prefix && masked_value(a.bits, b.prefix) == masked_value(b.bits, b.prefix)
}

/// STIX `ISSUBSET` on two strings: both read as networks and the first lies
/// within the second.
pub open spec fn subset_of(value: Seq<char>, range: Seq<char>) -> bool {
    match (network_of(value), network_of(range)) {
        (Some(a), Some(b)) => network_within(a, b),
        _ => false,
    }
}

proof fn lemma_u128_shl_is_mul(y: u128, k: u128)
    requires
        k < 128,
        y * pow2(k as nat) <= u128::MAX,
    ensures
        y << k == y * pow2(k as nat),
    decreases k,
{
    if k == 0 {
        assert(y << 0u128 == y) by (bit_vector);
        lemma2_to64();
    } else {
        let j: u128 = (k - 1) as u128;
        lemma_pow2_unfold(k as nat);
        lemma_pow2_pos(j as nat);
        assert(y * pow2(k as nat) == 2 * (y * pow2(j as nat))) by (nonlinear_arith)
            requires
                pow2(k as nat) == 2 * pow2(j as nat),
        ;
        lemma_u128_shl_is_mul(y, j);
        let z: u128 = y << j;
        assert(y << k == z << 1u128) by (bit_vector)
            requires
                z == y << j,
                j + 1 == k,
                k < 128,
        ;
        assert(z << 1u128 == z * 2) by (bit_vector)
            requires
                z * 2 <= u128::MAX,
        ;
    }
}

/// Mask `bits` to its top `prefix` bits (out of 128).
pub fn masked(bits: u128, prefix: u32) -> (r: u128)
    ensures
        r == masked_value(bits, prefix),
{
    if prefix == 0 {
        proof {
            lemma2_to64();
            lemma_pow2_adds(64, 64);
            assert(pow2(128) == 0x1_0000_0000_0000_0000_0000_0000_0000_0000);
            assert(bits as nat / pow2(128) == 0);
        }
        0
    } else if prefix >= 128 {
        proof {
            lemma2_to64();
        }
        bits
    } else {
        let k: u128 = (128 - prefix) as u128;
        let r = bits & (u128::MAX << k);
        proof {
            assert(r == (bits >> k) << k) by (bit_vector)
                requires
                    r == bits & (u128::MAX << k),
                    0 < k < 128,
            ;
            lemma_u128_shr_is_div(bits, k);
            let y: u128 = bits >> k;
            lemma_pow2_pos(k as nat);
            assert(y * pow2(k as nat) <= bits) by (nonlinear_arith)
                requires
                    y == bits as nat / pow2(k as nat),
                    pow2(k as nat) > 0,
            ;
            lemma_u128_shl_is_mul(y, k);
        }
        r
    }
}

/// Whether network `a` is entirely contained within network `b`.
pub fn network_subset(a: &Network, b: &Network) -> (r: bool)
    ensures
        r == network_within(*a, *b),
{
    if a.is_v6 != b.is_v6 {
        return false;
    }
    a.prefix >= b.prefix && masked(a.bits, b.prefix) == masked(b.bits, b.prefix)
}

// ---------------------------------------------------------------------------
// Reading, executably

/// `16^t`.
pub open spec fn pow16(t: nat) -> nat
    decreases t,
{
    if t == 0 {
        1
    } else {
        16 * pow16((t - 1) as nat)
    }
}

/// The values of a list of groups.
pub open spec fn group_values(v: Seq<u32>) -> Seq<nat> {
    v.map_values(|x: u32| x as nat)
}

/// `char::to_digit(radix)`.
fn digit_of(c: char, radix: u32) -> (r: Option<u32>)
    requires
        radix <= 36,
    ensures
        (match r {
            Some(d) => char_digit(c, radix as nat) == Some(d as nat) && d < radix,
            None => char_digit(c, radix as nat) is None,
        }),
{
    let n = c as u32;
    let v: u32 = if 48 <= n && n <= 57 {
        n - 48
    } else if 97 <= n && n <= 122 {
        n - 97 + 10
    } else if 65 <= n && n <= 90 {
        n - 65 + 10
    } else {
        36
    };
    if v < radix {
        Some(v)
    } else {
        None
    }
}

/// The characters of `v` from `a` to `b`.
fn slice_chars(v: &Vec<char>, a: usize, b: usize) -> (r: Vec<char>)
    requires
        a <= b <= v@.len(),
    ensures
        r@ == v@.subrange(a as int, b as int),
{
    let mut out: Vec<char> = Vec::new();
    let mut i = a;
    while i < b
        invariant
            a <= i <= b,
            b <= v@.len(),
            out@ == v@.subrange(a as int, i as int),
        decreases b - i,
    {
        out.push(v[i]);
        i = i + 1;
    }
    out
}

/// The maximal run of digits at `p`: its end.
fn run_end(s: &Vec<char>, p: usize, radix: u32) -> (j: usize)
    requires
        p <= s@.len(),
        radix <= 36,
    ensures
        p <= j <= s@.len(),
        digit_run(s@, p as int, radix as nat) == j - p,
        forall|i: int| p <= i < j ==> #[trigger] char_digit(s@[i], radix as nat) is Some,
{
    let mut j = p;
    while j < s.len() && digit_of(s[j], radix).is_some()
        invariant
            p <= j <= s@.len(),
            radix <= 36,
            digit_run(s@, p as int, radix as nat) == (j - p) + digit_run(s@, j as int, radix as nat),
            forall|i: int| p <= i < j ==> #[trigger] char_digit(s@[i], radix as nat) is Some,
        decreases s@.len() - j,
    {
        j = j + 1;
    }
    j
}

/// A number at `p` (see [`number_at`]).
fn read_number(s: &Vec<char>, p: usize, radix: u32, max_digits: usize, zero_ok: bool, max_value: u32) -> (r: Option<(u32, usize)>)
    requires
        p <= s@.len(),
        radix == 10 || radix == 16,
        max_digits <= 4,
    ensures
        (match r {
            Some((v, q)) => number_at(s@, p as int, radix as nat, max_digits as nat, zero_ok, max_value as nat) == Some((v as nat, q as int)) && q <= s@.len(),
            None => number_at(s@, p as int, radix as nat, max_digits as nat, zero_ok, max_value as nat) is None,
        }),
{
    let j = run_end(s, p, radix);
    let k = j - p;
    if k == 0 || k > max_digits {
        return None;
    }
    let mut acc: u32 = 0;
    let mut t: usize = 0;
    while t < k
        invariant
            0 <= t <= k <= 4,
            k == j - p,
            j <= s@.len(),
            radix == 10 || radix == 16,
            forall|i: int| p <= i < j ==> #[trigger] char_digit(s@[i], radix as nat) is Some,
            acc == run_value(s@, p as int, t as nat, radix as nat),
            acc < pow16(t as nat),
        decreases k - t,
    {
        assert(char_digit(s@[p + t], radix as nat) is Some);
        let d = match digit_of(s[p + t], radix) {
            Some(d) => d,
            None => 0,
        };
        proof {
            reveal_with_fuel(pow16, 5);
            assert(pow16(t as nat) <= 4096);
            assert(acc * radix + d < 16 * pow16(t as nat)) by (nonlinear_arith)
                requires
                    acc < pow16(t as nat),
                    radix <= 16,
                    d < radix,
            ;
        }
        acc = acc * radix + d;
        t = t + 1;
    }
    if acc > max_value {
        return None;
    }
    if !zero_ok && s[p] == '0' && k > 1 {
        return None;
    }
    Some((acc, j))
}

/// A number after a separator, or at `p` for the first item.
fn read_item_number(s: &Vec<char>, p: usize, first: bool, sep: char, radix: u32, max_digits: usize, zero_ok: bool, max_value: u32) -> (r: Option<(u32, usize)>)
    requires
        p <= s@.len(),
        radix == 10 || radix == 16,
        max_digits <= 4,
    ensures
        (match r {
            Some((v, q)) => item_number(s@, p as int, first, sep, radix as nat, max_digits as nat, zero_ok, max_value as nat) == Some((v as nat, q as int)) && q <= s@.len(),
            None => item_number(s@, p as int, first, sep, radix as nat, max_digits as nat, zero_ok, max_value as nat) is None,
        }),
{
    if first {
        read_number(s, p, radix, max_digits, zero_ok, max_value)
    } else if p < s.len() && s[p] == sep {
        read_number(s, p + 1, radix, max_digits, zero_ok, max_value)
    } else {
        None
    }
}

/// An IPv4 address at `p` (see [`ipv4_at`]).
fn read_ipv4(s: &Vec<char>, p: usize) -> (r: Option<(u32, usize)>)
    requires
        p <= s@.len(),
    ensures
        (match r {
            Some((v, q)) => ipv4_at(s@, p as int) == Some((v as nat, q as int)) && q <= s@.len(),
            None => ipv4_at(s@, p as int) is None,
        }),
{
    let (a, p1) = match read_item_number(s, p, true, '.', 10, 3, false, 255) {
        Some(x) => x,
        None => return None,
    };
    let (b, p2) = match read_item_number(s, p1, false, '.', 10, 3, false, 255) {
        Some(x) => x,
        None => return None,
    };
    let (c, p3) = match read_item_number(s, p2, false, '.', 10, 3, false, 255) {
        Some(x) => x,
        None => return None,
    };
    let (d, p4) = match read_item_number(s, p3, false, '.', 10, 3, false, 255) {
        Some(x) => x,
        None => return None,
    };
    Some((a * 16777216 + b * 65536 + c * 256 + d, p4))
}

/// An embedded IPv4 address, after a `:` unless first.
fn read_item_ipv4(s: &Vec<char>, p: usize, first: bool) -> (r: Option<(u32, usize)>)
    requires
        p <= s@.len(),
    ensures
        (match r {
            Some((v, q)) => item_ipv4(s@, p as int, first) == Some((v as nat, q as int)) && q <= s@.len(),
            None => item_ipv4(s@, p as int, first) is None,
        }),
{
    if first {
        read_ipv4(s, p)
    } else if p < s.len() && s[p] == ':' {
        read_ipv4(s, p + 1)
    } else {
        None
    }
}

proof fn lemma_groups_len(s: Seq<char>, p: int, i: nat, limit: nat)
    requires
        i <= limit,
    ensures
        groups_at(s, p, i, limit).0.len() <= limit - i,
        forall|j: int| 0 <= j < groups_at(s, p, i, limit).0.len() ==> #[trigger] groups_at(s, p, i, limit).0[j] < 65536,
    decreases limit - i,
{
    if i < limit {
        let v4 = if i + 1 < limit {
            item_ipv4(s, p, i == 0)
        } else {
            None
        };
        match v4 {
            Some((a, q)) => {
                let g = groups_at(s, p, i, limit).0;
                assert(g =~= seq![a / 65536, a % 65536]);
                if (a as int) < 4294967296 {
                    assert(a / 65536 < 65536) by (nonlinear_arith)
                        requires
                            a < 4294967296,
                    ;
                }
                lemma_ipv4_bound(s, if i == 0 { p } else { p + 1 });
            },
            None => match item_number(s, p, i == 0, ':', 16, 4, true, 65535) {
                None => {},
                Some((g, q)) => {
                    lemma_groups_len(s, q, i + 1, limit);
                },
            },
        }
    }
}

proof fn lemma_ipv4_bound(s: Seq<char>, p: int)
    ensures
        ipv4_at(s, p) matches Some((a, q)) ==> a < 4294967296,
{
}

/// The groups of an IPv6 address from `p0` (see [`groups_at`]).
fn read_groups(s: &Vec<char>, p0: usize, limit: usize) -> (r: (Vec<u32>, usize, bool))
    requires
        p0 <= s@.len(),
        limit <= 8,
    ensures
        groups_at(s@, p0 as int, 0, limit as nat) == (group_values(r.0@), r.1 as int, r.2),
        r.1 <= s@.len(),
        r.0@.len() <= limit,
{
    let mut acc: Vec<u32> = Vec::new();
    let mut p = p0;
    let mut i: usize = 0;
    assert(group_values(acc@) =~= Seq::<nat>::empty());
    while i < limit
        invariant
            i <= limit <= 8,
            p <= s@.len(),
            acc@.len() == i,
            groups_at(s@, p0 as int, 0, limit as nat) == (
                group_values(acc@) + groups_at(s@, p as int, i as nat, limit as nat).0,
                groups_at(s@, p as int, i as nat, limit as nat).1,
                groups_at(s@, p as int, i as nat, limit as nat).2,
            ),
        decreases limit - i,
    {
        let ghost here = groups_at(s@, p as int, i as nat, limit as nat);
        if i + 1 < limit {
            match read_item_ipv4(s, p, i == 0) {
                Some((a, q)) => {
                    let ghost before = group_values(acc@);
                    acc.push(a / 65536);
                    acc.push(a % 65536);
                    assert(group_values(acc@) =~= before + seq![(a / 65536) as nat, (a % 65536) as nat]);
                    assert(here.0 =~= seq![(a / 65536) as nat, (a % 65536) as nat]);
                    return (acc, q, true);
                },
                None => {},
            }
        }
        match read_item_number(s, p, i == 0, ':', 16, 4, true, 65535) {
            None => {
                assert(here.0 =~= Seq::<nat>::empty());
                assert(group_values(acc@) + here.0 =~= group_values(acc@));
                return (acc, p, false);
            },
            Some((g, q)) => {
                let ghost before = group_values(acc@);
                let ghost rest = groups_at(s@, q as int, (i + 1) as nat, limit as nat);
                acc.push(g);
                assert(group_values(acc@) =~= before.push(g as nat));
                assert(before + here.0 =~= group_values(acc@) + rest.0);
                p = q;
                i = i + 1;
            },
        }
    }
    assert(group_values(acc@) + Seq::<nat>::empty() =~= group_values(acc@));
    (acc, p, false)
}

/// An IPv6 address at `p` (see [`ipv6_at`]).
fn read_ipv6(s: &Vec<char>, p: usize) -> (r: Option<(Vec<u32>, usize)>)
    requires
        p <= s@.len(),
    ensures
        (match r {
            Some((g, q)) => ipv6_at(s@, p as int) == Some((group_values(g@), q as int)) && q <= s@.len() && g@.len() == 8
                && forall|j: int| 0 <= j < 8 ==> #[trigger] g@[j] < 65536,
            None => ipv6_at(s@, p as int) is None,
        }),
{
    let (head, q, head_v4) = read_groups(s, p, 8);
    proof { lemma_groups_len(s@, p as int, 0, 8); }
    if head.len() == 8 {
        proof {
            assert forall|j: int| 0 <= j < 8 implies #[trigger] head@[j] < 65536 by {
                assert(group_values(head@)[j] == head@[j] as nat);
            }
        }
        return Some((head, q));
    }
    if head_v4 {
        return None;
    }
    if q < s.len() && s.len() - q > 1 && s[q] == ':' && s[q + 1] == ':' {
        let limit = 7 - head.len();
        let (tail, r, _) = read_groups(s, q + 2, limit);
        proof { lemma_groups_len(s@, q + 2, 0, limit as nat); }
        let zeros = 8 - head.len() - tail.len();
        let mut out = head;
        let ghost hv = group_values(out@);
        let mut z: usize = 0;
        while z < zeros
            invariant
                z <= zeros,
                out@.len() == hv.len() + z,
                group_values(out@) == hv + Seq::new(z as nat, |j: int| 0nat),
            decreases zeros - z,
        {
            let ghost before = group_values(out@);
            out.push(0);
            assert(group_values(out@) =~= before.push(0nat));
            assert(hv + Seq::new((z + 1) as nat, |j: int| 0nat) =~= (hv + Seq::new(z as nat, |j: int| 0nat)).push(0nat));
            z = z + 1;
        }
        let ghost mid = group_values(out@);
        let mut t: usize = 0;
        while t < tail.len()
            invariant
                t <= tail@.len(),
                group_values(out@) == mid + group_values(tail@).subrange(0, t as int),
            decreases tail@.len() - t,
        {
            let ghost before = group_values(out@);
            out.push(tail[t]);
            assert(group_values(out@) =~= before.push(tail@[t as int] as nat));
            assert(group_values(tail@).subrange(0, t + 1) =~= group_values(tail@).subrange(0, t as int).push(tail@[t as int] as nat));
            assert(mid + group_values(tail@).subrange(0, t + 1) =~= (mid + group_values(tail@).subrange(0, t as int)).push(tail@[t as int] as nat));
            t = t + 1;
        }
        assert(group_values(tail@).subrange(0, tail@.len() as int) =~= group_values(tail@));
        proof {
            let spec_out = ipv6_at(s@, p as int);
            assert forall|j: int| 0 <= j < 8 implies #[trigger] out@[j] < 65536 by {
                assert(group_values(out@)[j] == out@[j] as nat);
                if j < hv.len() {
                } else if j < hv.len() + zeros {
                } else {
                    assert(group_values(out@)[j] == group_values(tail@)[j - hv.len() - zeros]);
                }
            }
        }
        Some((out, r))
    } else {
        None
    }
}

/// The 128-bit value of eight 16-bit groups.
fn groups_to_bits(g: &Vec<u32>) -> (r: u128)
    requires
        g@.len() == 8,
        forall|j: int| 0 <= j < 8 ==> #[trigger] g@[j] < 65536,
    ensures
        r == groups_value(group_values(g@)),
{
    let ghost gv = group_values(g@);
    let mut acc: u128 = 0;
    let mut i: usize = 0;
    proof {
        lemma2_to64();
        lemma_pow2_adds(64, 64);
        assert(gv.subrange(0, 0) =~= Seq::<nat>::empty());
    }
    while i < 8
        invariant
            i <= 8,
            g@.len() == 8,
            gv == group_values(g@),
            forall|j: int| 0 <= j < 8 ==> #[trigger] g@[j] < 65536,
            acc == groups_value(gv.subrange(0, i as int)),
            acc < pow2((16 * i) as nat),
            pow2(16) == 65536,
            pow2(128) == 0x1_0000_0000_0000_0000_0000_0000_0000_0000,
        decreases 8 - i,
    {
        let x = g[i];
        proof {
            assert(gv.subrange(0, i + 1).drop_last() =~= gv.subrange(0, i as int));
            assert(gv.subrange(0, i + 1).last() == x as nat);
            lemma_pow2_adds((16 * i) as nat, 16);
            if i + 1 < 8 {
                lemma_pow2_strictly_increases((16 * (i + 1)) as nat, 128);
            }
            assert(acc * 65536 + x < pow2((16 * i) as nat) * 65536) by (nonlinear_arith)
                requires
                    acc < pow2((16 * i) as nat),
                    x < 65536,
            ;
        }
        acc = acc * 65536 + (x as u128);
        i = i + 1;
    }
    assert(gv.subrange(0, 8) =~= gv);
    acc
}

/// How a whole character sequence reads as an IP address (see [`ip_of`]).
fn parse_ip(cs: &Vec<char>) -> (r: Option<(bool, u128)>)
    ensures
        (match r {
            Some((v6, b)) => ip_of(cs@) == Some((v6, b as nat)),
            None => ip_of(cs@) is None,
        }),
{
    reveal(ip_of);
    match read_ipv4(cs, 0) {
        Some((a, q)) => {
            if q == cs.len() {
                Some((false, a as u128))
            } else {
                None
            }
        },
        None => match read_ipv6(cs, 0) {
            Some((g, q)) => {
                if q == cs.len() {
                    Some((true, groups_to_bits(&g)))
                } else {
                    None
                }
            },
            None => None,
        },
    }
}

/// A prefix length of at most `limit` (see [`decimal_of`]).
fn read_prefix(t: &Vec<char>, limit: u32) -> (r: Option<u32>)
    requires
        limit <= 128,
    ensures
        r == (match decimal_of(t@) {
            Some(v) => if v <= limit {
                Some(v as u32)
            } else {
                None
            },
            None => None,
        }),
{
    let d = if t.len() > 0 && t[0] == '+' {
        slice_chars(t, 1, t.len())
    } else {
        slice_chars(t, 0, t.len())
    };
    assert(d@ == (if t@.len() > 0 && t@[0] == '+' { t@.drop_first() } else { t@ }));
    let j = run_end(&d, 0, 10);
    if d.len() == 0 || j != d.len() {
        return None;
    }
    let mut acc: u32 = 0;
    let mut i: usize = 0;
    while i < d.len()
        invariant
            i <= d@.len(),
            j == d@.len(),
            forall|k: int| 0 <= k < j ==> #[trigger] char_digit(d@[k], 10) is Some,
            acc == (if run_value(d@, 0, i as nat, 10) > 1000 { 1000 } else { run_value(d@, 0, i as nat, 10) }),
        decreases d@.len() - i,
    {
        assert(char_digit(d@[i as int], 10) is Some);
        let x = match digit_of(d[i], 10) {
            Some(x) => x,
            None => 0,
        };
        let next = acc * 10 + x;
        acc = if next > 1000 { 1000 } else { next };
        i = i + 1;
    }
    if acc <= limit {
        Some(acc)
    } else {
        None
    }
}

/// Parse `"addr"` or `"addr/prefix"` into a network (see [`network_of`]).
fn parse_network(s: &str) -> (r: Option<Network>)
    ensures
        r == network_of(s@),
{
    let cs = chars_of(s);
    let mut i: usize = 0;
    while i < cs.len() && cs[i] != '/'
        invariant
            i <= cs@.len(),
            cs@ == s@,
            slash_index(cs@) == slash_from(cs@, i as int),
        decreases cs@.len() - i,
    {
        i = i + 1;
    }
    let has_slash = i < cs.len();
    assert(slash_index(cs@) == (if has_slash { Some(i as int) } else { None::<int> }));
    assert(cs@.subrange(0, cs@.len() as int) =~= cs@);
    let addr = slice_chars(&cs, 0, i);
    let pre = if has_slash {
        slice_chars(&cs, i + 1, cs.len())
    } else {
        Vec::new()
    };
    match parse_ip(&addr) {
        None => None,
        Some((v6, bits)) => {
            let full: u32 = if v6 { 128 } else { 32 };
            let prefix = if has_slash {
                match read_prefix(&pre, full) {
                    Some(p) => p,
                    None => return None,
                }
            } else {
                full
            };
            Some(Network { bits, prefix: if v6 { prefix } else { prefix + 96 }, is_v6: v6 })
        },
    }
}

/// STIX `ISSUBSET`: is the address or range `value` within `range`?
pub fn is_subset(value: &str, range: &str) -> (r: bool)
    ensures
        r == subset_of(value@, range@),
{
    match (parse_network(value), parse_network(range)) {
        (Some(a), Some(b)) => network_subset(&a, &b),
        _ => false,
    }
}

/// STIX `ISSUPERSET`: is `value` a superset of `range`, that is, is `range`
/// within `value`?
pub fn is_superset(value: &str, range: &str) -> (r: bool)
    ensures
        r == subset_of(range@, value@),
{
    is_subset(range, value)
}

// ---------------------------------------------------------------------------
// Laws

/// The shift that masking to `prefix` bits divides by.
pub open spec fn mask_shift(prefix: u32) -> nat {
    if prefix >= 128 {
        0
    } else {
        (128 - prefix) as nat
    }
}

/// Masking to a shorter prefix only depends on the longer-prefix mask: for
/// `q <= p`, the top `q` bits of `x` are those of `x` masked to `p` bits.
proof fn lemma_masked_coarsens(x: u128, p: u32, q: u32)
    requires
        q <= p,
    ensures
        masked_value(x, q) == (masked_value(x, p) / pow2(mask_shift(q))) * pow2(mask_shift(q)),
{
    let kp = mask_shift(p);
    let kq = mask_shift(q);
    let d = (kq - kp) as nat;
    lemma_pow2_pos(kp);
    lemma_pow2_pos(d);
    lemma_pow2_adds(kp, d);
    assert(kq == kp + d);
    let m = x as nat / pow2(kp);
    // (m * 2^kp) / (2^kp * 2^d) == m / 2^d
    lemma_div_multiples_vanish_quotient(pow2(kp) as int, m as int, pow2(d) as int);
    assert(pow2(kp) * m == m * pow2(kp)) by (nonlinear_arith);
    // x / (2^kp * 2^d) == (x / 2^kp) / 2^d
    lemma_div_denominator(x as int, pow2(kp) as int, pow2(d) as int);
}

/// The value of groups written one after another: the first part gives the
/// high-order groups.
proof fn lemma_groups_value_concat(a: Seq<nat>, b: Seq<nat>)
    ensures
        groups_value(a + b) == groups_value(a) * pow2(16 * b.len()) + groups_value(b),
    decreases b.len(),
{
    if b.len() == 0 {
        assert(a + b =~= a);
        assert(groups_value(b) == 0);
        assert(pow2(0) == 1) by {
            lemma2_to64();
        }
        assert(16 * b.len() == 0);
        assert(groups_value(a + b) == groups_value(a) * pow2(16 * b.len()) + groups_value(b));
    } else {
        let b1 = b.drop_last();
        assert((a + b).drop_last() =~= a + b1);
        assert((a + b).last() == b.last());
        lemma_groups_value_concat(a, b1);
        lemma_pow2_adds(16 * b1.len(), 16);
        assert(pow2(16) == 65536) by {
            lemma2_to64();
        }
        assert(16 * b1.len() + 16 == 16 * b.len());
        let x = groups_value(a);
        let pw = pow2(16 * b1.len());
        let y = groups_value(b1);
        assert((x * pw + y) * 65536 + b.last() == x * (pw * 65536) + (y * 65536 + b.last())) by (nonlinear_arith);
        assert(groups_value(a + b) == groups_value(a + b1) * 65536 + b.last());
        assert(groups_value(b) == y * 65536 + b.last());
        assert(pow2(16 * b.len()) == pw * 65536);
        assert(groups_value(a + b1) == x * pw + y);
        assert(groups_value(a + b) == x * (pw * 65536) + groups_value(b));
        assert(groups_value(a + b) == groups_value(a) * pow2(16 * b.len()) + groups_value(b));
    }
}

/// Zero groups have the value zero.
proof fn lemma_zero_groups_value(n: nat)
    ensures
        groups_value(Seq::new(n, |j: int| 0nat)) == 0,
    decreases n,
{
    if n > 0 {
        assert(Seq::new(n, |j: int| 0nat).drop_last() =~= Seq::new((n - 1) as nat, |j: int| 0nat));
        lemma_zero_groups_value((n - 1) as nat);
    }
}

/// In an IPv6 address written with `::`, the groups written before it are the
/// high-order groups and those written after it the low-order ones, with zero
/// groups between: the address has the value of its leading groups shifted up
/// past the remaining `8 - k` groups, plus the value of its trailing groups.
/// So `::1` is 1, and `2001:db8::1` is the groups `2001` and `db8`, then five
/// zero groups, then the group `1`.
pub proof fn compressed_ipv6_value(s: Seq<char>)
    requires
        ip_of(s) matches Some((v6, _)) && v6,
        groups_at(s, 0, 0, 8).0.len() < 8,
    ensures
        ({
            let head = groups_at(s, 0, 0, 8);
            let tail = groups_at(s, head.1 + 2, 0, (7 - head.0.len()) as nat);
            &&& head.1 + 1 < s.len() && s[head.1] == ':' && s[head.1 + 1] == ':'
            &&& ip_of(s) matches Some((_, value)) && value == groups_value(head.0) * pow2(16 * (8 - head.0.len()) as nat)
                + groups_value(tail.0)
        }),
{
    reveal(ip_of);
    let head = groups_at(s, 0, 0, 8);
    let tail = groups_at(s, head.1 + 2, 0, (7 - head.0.len()) as nat);
    let k = head.0.len();
    lemma_groups_len(s, head.1 + 2, 0, (7 - k) as nat);
    let m = tail.0.len();
    let z = (8 - k - m) as nat;
    let zeros = Seq::new(z, |j: int| 0nat);
    lemma_groups_value_concat(head.0, zeros);
    lemma_zero_groups_value(z);
    lemma_groups_value_concat(head.0 + zeros, tail.0);
    lemma_pow2_adds(16 * z, 16 * m);
    assert(16 * z + 16 * m == 16 * (8 - k));
    let x = groups_value(head.0);
    assert(x * pow2(16 * z) * pow2(16 * m) == x * (pow2(16 * z) * pow2(16 * m))) by (nonlinear_arith);
}

/// Every string that reads as a network lies within itself.
pub proof fn subset_is_reflexive(s: Seq<char>)
    requires
        network_of(s) is Some,
    ensures
        subset_of(s, s),
{
}

/// Lying within is transitive: a network within a second network that lies
/// within a third lies within the third.
pub proof fn subset_is_transitive(a: Seq<char>, b: Seq<char>, c: Seq<char>)
    requires
        subset_of(a, b),
        subset_of(b, c),
    ensures
        subset_of(a, c),
{
    let na = network_of(a)->0;
    let nb = network_of(b)->0;
    let nc = network_of(c)->0;
    lemma_masked_coarsens(na.bits, nb.prefix, nc.prefix);
    lemma_masked_coarsens(nb.bits, nb.prefix, nc.prefix);
}

/// A network within another holds only addresses of the other: every 128-bit
/// address whose top bits are those of `a` has the top bits of `b`.
pub proof fn subset_contains_addresses(a: Network, b: Network, x: u128)
    requires
        network_within(a, b),
        masked_value(x, a.prefix) == masked_value(a.bits, a.prefix),
    ensures
        masked_value(x, b.prefix) == masked_value(b.bits, b.prefix),
{
    lemma_masked_coarsens(x, a.prefix, b.prefix);
    lemma_masked_coarsens(a.bits, a.prefix, b.prefix);
}

} // verus!
