//! Socket addresses as plain values, with their wire text form.
//!
//! The control protocol carries a socket address as ASCII text,
//! `a.b.c.d:port` for IPv4 and `[g0:g1:g2:g3:g4:g5:g6:g7]:port` for
//! IPv6. The grammar is pinned here: an IPv6 address is always written
//! out as eight colon-separated hexadecimal groups — never compressed
//! with `::` — in lower case; reading accepts the same eight-group form
//! with either letter case, and numbers are read by value, so leading
//! zeros are allowed. This module models an address as integers, defines
//! the text form as a specification, and provides verified formatting
//! and parsing that are proved inverse to each other.

use vstd::prelude::*;

verus! {

/// An IP address held as plain integers.
#[derive(PartialEq, Eq, Structural, Clone, Copy, Debug)]
pub enum IpAddress {
    /// The four octets of an IPv4 address, in order.
    V4(u8, u8, u8, u8),
    /// The eight 16-bit groups of an IPv6 address, in order.
    V6(u16, u16, u16, u16, u16, u16, u16, u16),
}

/// An IP address together with a TCP/UDP port.
#[derive(PartialEq, Eq, Structural, Clone, Copy, Debug)]
pub struct SocketAddress {
    pub ip: IpAddress,
    pub port: u16,
}

// --- bytes of the textual syntax ---

/// `.` between IPv4 octets.
pub const DOT_BYTE: u8 = 46;
/// `:` between address and port, and between IPv6 groups.
pub const COLON_BYTE: u8 = 58;
/// `[` opening an IPv6 address.
pub const OPEN_BYTE: u8 = 91;
/// `]` closing an IPv6 address.
pub const CLOSE_BYTE: u8 = 93;

// --- decimal and hexadecimal digit runs ---

pub open spec fn is_dec_digit(b: u8) -> bool {
    48 <= b <= 57
}

pub open spec fn is_hex_digit(b: u8) -> bool {
    is_dec_digit(b) || (97 <= b <= 102) || (65 <= b <= 70)
}

pub open spec fn dec_digit_val(b: u8) -> nat {
    (b - 48) as nat
}

pub open spec fn hex_digit_val(b: u8) -> nat {
    if is_dec_digit(b) {
        (b - 48) as nat
    } else if 97 <= b <= 102 {
        (b - 87) as nat
    } else {
        (b - 55) as nat
    }
}

/// The numeric value of a run of decimal digit bytes, most significant first.
pub open spec fn dec_value(s: Seq<u8>) -> nat
    decreases s.len(),
{
    if s.len() == 0 {
        0
    } else {
        dec_value(s.drop_last()) * 10 + dec_digit_val(s.last())
    }
}

/// The numeric value of a run of hexadecimal digit bytes, most significant first.
pub open spec fn hex_value(s: Seq<u8>) -> nat
    decreases s.len(),
{
    if s.len() == 0 {
        0
    } else {
        hex_value(s.drop_last()) * 16 + hex_digit_val(s.last())
    }
}

pub open spec fn all_dec_digits(s: Seq<u8>) -> bool {
    forall|i: int| 0 <= i < s.len() ==> is_dec_digit(s[i])
}

pub open spec fn all_hex_digits(s: Seq<u8>) -> bool {
    forall|i: int| 0 <= i < s.len() ==> is_hex_digit(s[i])
}

/// The decimal digits of `n` without leading zeros; empty for zero.
pub open spec fn dec_digits(n: nat) -> Seq<u8>
    decreases n,
{
    if n == 0 {
        Seq::empty()
    } else {
        dec_digits(n / 10) + seq![(48 + n % 10) as u8]
    }
}

/// The decimal text of `n`: its digits, or `0` itself for zero.
pub open spec fn dec_text(n: nat) -> Seq<u8> {
    if n == 0 {
        seq![48u8]
    } else {
        dec_digits(n)
    }
}

/// The lower-case hexadecimal digits of `n` without leading zeros; empty for zero.
pub open spec fn hex_digits(n: nat) -> Seq<u8>
    decreases n,
{
    if n == 0 {
        Seq::empty()
    } else {
        hex_digits(n / 16) + seq![if n % 16 < 10 {
            (48 + n % 16) as u8
        } else {
            (87 + n % 16) as u8
        }]
    }
}

/// The lower-case hexadecimal text of `n`: its digits, or `0` for zero.
pub open spec fn hex_text(n: nat) -> Seq<u8> {
    if n == 0 {
        seq![48u8]
    } else {
        hex_digits(n)
    }
}

// --- facts about digit runs ---

pub proof fn lemma_dec_digits_value(n: nat)
    ensures
        dec_value(dec_digits(n)) == n,
        all_dec_digits(dec_digits(n)),
    decreases n,
{
    if n == 0 {
    } else {
        lemma_dec_digits_value(n / 10);
        let d = seq![(48 + n % 10) as u8];
        let s = dec_digits(n / 10) + d;
        assert(s.drop_last() =~= dec_digits(n / 10));
        assert(s.last() == (48 + n % 10) as u8);
        assert(dec_value(s) == (n / 10) * 10 + n % 10);
        assert(forall|i: int| 0 <= i < s.len() ==> is_dec_digit(s[i]));
    }
}

pub proof fn lemma_dec_text_value(n: nat)
    ensures
        dec_value(dec_text(n)) == n,
        all_dec_digits(dec_text(n)),
        dec_text(n).len() >= 1,
{
    if n == 0 {
        assert(dec_value(seq![48u8]) == 0) by {
            reveal_with_fuel(dec_value, 2);
            assert(seq![48u8].drop_last() =~= Seq::<u8>::empty());
            assert(seq![48u8].last() == 48u8);
        }
    } else {
        lemma_dec_digits_value(n);
    }
}

pub proof fn lemma_hex_digits_value(n: nat)
    ensures
        hex_value(hex_digits(n)) == n,
        all_hex_digits(hex_digits(n)),
    decreases n,
{
    if n == 0 {
    } else {
        lemma_hex_digits_value(n / 16);
        let b: u8 = if n % 16 < 10 {
            (48 + n % 16) as u8
        } else {
            (87 + n % 16) as u8
        };
        let s = hex_digits(n / 16) + seq![b];
        assert(s.drop_last() =~= hex_digits(n / 16));
        assert(s.last() == b);
        assert(hex_digit_val(b) == n % 16);
        assert(hex_value(s) == (n / 16) * 16 + n % 16);
        assert(forall|i: int| 0 <= i < s.len() ==> is_hex_digit(s[i]));
    }
}

pub proof fn lemma_hex_text_value(n: nat)
    ensures
        hex_value(hex_text(n)) == n,
        all_hex_digits(hex_text(n)),
        hex_text(n).len() >= 1,
{
    if n == 0 {
        assert(hex_value(seq![48u8]) == 0) by {
            reveal_with_fuel(hex_value, 2);
            assert(seq![48u8].drop_last() =~= Seq::<u8>::empty());
            assert(seq![48u8].last() == 48u8);
        }
    } else {
        lemma_hex_digits_value(n);
    }
}

/// A number below `10^k` needs at most `k` decimal digits.
pub proof fn lemma_dec_digits_len(n: nat, k: nat, bound: nat)
    requires
        n < bound,
        bound == pow10(k),
    ensures
        dec_digits(n).len() <= k,
    decreases k,
{
    if n == 0 {
    } else {
        assert(k > 0);
        assert(n / 10 < pow10((k - 1) as nat)) by {
            assert(pow10(k) == pow10((k - 1) as nat) * 10);
        }
        lemma_dec_digits_len(n / 10, (k - 1) as nat, pow10((k - 1) as nat));
    }
}

/// A number below `16^k` needs at most `k` hexadecimal digits.
pub proof fn lemma_hex_digits_len(n: nat, k: nat, bound: nat)
    requires
        n < bound,
        bound == pow16(k),
    ensures
        hex_digits(n).len() <= k,
    decreases k,
{
    if n == 0 {
    } else {
        assert(k > 0);
        assert(n / 16 < pow16((k - 1) as nat)) by {
            assert(pow16(k) == pow16((k - 1) as nat) * 16);
        }
        lemma_hex_digits_len(n / 16, (k - 1) as nat, pow16((k - 1) as nat));
    }
}

pub open spec fn pow10(k: nat) -> nat
    decreases k,
{
    if k == 0 {
        1
    } else {
        pow10((k - 1) as nat) * 10
    }
}

pub open spec fn pow16(k: nat) -> nat
    decreases k,
{
    if k == 0 {
        1
    } else {
        pow16((k - 1) as nat) * 16
    }
}

/// A run of at most `k` decimal digits stays below `10^k`.
pub proof fn lemma_dec_value_bound(s: Seq<u8>, k: nat)
    requires
        all_dec_digits(s),
        s.len() <= k,
    ensures
        dec_value(s) < pow10(k),
    decreases s.len(),
{
    if s.len() == 0 {
        lemma_pow10_pos(k);
    } else {
        assert(all_dec_digits(s.drop_last())) by {
            assert(forall|i: int|
                0 <= i < s.drop_last().len() ==> s.drop_last()[i] == s[i]);
        }
        lemma_dec_value_bound(s.drop_last(), (k - 1) as nat);
        assert(pow10(k) == pow10((k - 1) as nat) * 10);
        assert(dec_digit_val(s.last()) <= 9);
    }
}

/// A run of at most `k` hexadecimal digits stays below `16^k`.
pub proof fn lemma_hex_value_bound(s: Seq<u8>, k: nat)
    requires
        all_hex_digits(s),
        s.len() <= k,
    ensures
        hex_value(s) < pow16(k),
    decreases s.len(),
{
    if s.len() == 0 {
        lemma_pow16_pos(k);
    } else {
        assert(all_hex_digits(s.drop_last())) by {
            assert(forall|i: int|
                0 <= i < s.drop_last().len() ==> s.drop_last()[i] == s[i]);
        }
        lemma_hex_value_bound(s.drop_last(), (k - 1) as nat);
        assert(pow16(k) == pow16((k - 1) as nat) * 16);
        assert(hex_digit_val(s.last()) <= 15);
    }
}

proof fn lemma_pow10_pos(k: nat)
    ensures
        pow10(k) >= 1,
    decreases k,
{
    if k > 0 {
        lemma_pow10_pos((k - 1) as nat);
    }
}

proof fn lemma_pow16_pos(k: nat)
    ensures
        pow16(k) >= 1,
    decreases k,
{
    if k > 0 {
        lemma_pow16_pos((k - 1) as nat);
    }
}

// --- locating a separator byte ---

/// Index of the first occurrence of `b` in `s`, or `s.len()` if absent.
pub open spec fn find_byte_spec(s: Seq<u8>, b: u8) -> int
    decreases s.len(),
{
    if s.len() == 0 {
        0
    } else if s[0] == b {
        0
    } else {
        1 + find_byte_spec(s.skip(1), b)
    }
}

/// The first occurrence is exactly the position before which `b` is absent.
pub proof fn lemma_find_byte_exact(s: Seq<u8>, b: u8, i: int)
    requires
        0 <= i <= s.len(),
        forall|j: int| 0 <= j < i ==> s[j] != b,
        i < s.len() ==> s[i] == b,
    ensures
        find_byte_spec(s, b) == i,
    decreases s.len(),
{
    if s.len() == 0 {
    } else if s[0] == b {
        assert(i == 0);
    } else {
        assert(i >= 1);
        let t = s.skip(1);
        assert(forall|j: int| 0 <= j < i - 1 ==> t[j] == s[j + 1] && t[j] != b);
        assert(i - 1 < t.len() ==> t[i - 1] == b);
        lemma_find_byte_exact(t, b, i - 1);
    }
}

pub proof fn lemma_find_byte_props(s: Seq<u8>, b: u8)
    ensures
        0 <= find_byte_spec(s, b) <= s.len(),
        forall|j: int| 0 <= j < find_byte_spec(s, b) ==> s[j] != b,
        find_byte_spec(s, b) < s.len() ==> s[find_byte_spec(s, b)] == b,
    decreases s.len(),
{
    if s.len() == 0 {
    } else if s[0] == b {
    } else {
        let t = s.skip(1);
        lemma_find_byte_props(t, b);
        let f = find_byte_spec(t, b);
        assert forall|j: int| 0 <= j < 1 + f implies s[j] != b by {
            if j >= 1 {
                assert(s[j] == t[j - 1]);
            }
        }
        if 1 + f < s.len() {
            assert(s[1 + f] == t[f]);
        }
    }
}

/// Index of the first occurrence of `b` in `v`, or `v.len()` if absent.
pub fn find_byte(v: &Vec<u8>, b: u8) -> (i: usize)
    ensures
        i == find_byte_spec(v@, b),
{
    let mut i: usize = 0;
    while i < v.len()
        invariant
            i <= v@.len(),
            forall|j: int| 0 <= j < i ==> v@[j] != b,
        decreases v@.len() - i,
    {
        if v[i] == b {
            proof {
                lemma_find_byte_exact(v@, b, i as int);
            }
            return i;
        }
        i = i + 1;
    }
    proof {
        lemma_find_byte_exact(v@, b, i as int);
    }
    i
}

/// A copy of `v[lo..hi]`.
pub fn subvec(v: &Vec<u8>, lo: usize, hi: usize) -> (r: Vec<u8>)
    requires
        lo <= hi <= v@.len(),
    ensures
        r@ == v@.subrange(lo as int, hi as int),
{
    let mut r: Vec<u8> = Vec::new();
    let mut j: usize = lo;
    while j < hi
        invariant
            lo <= j <= hi <= v@.len(),
            r@ == v@.subrange(lo as int, j as int),
        decreases hi - j,
    {
        r.push(v[j]);
        proof {
            assert(v@.subrange(lo as int, (j + 1) as int) =~= v@.subrange(
                lo as int,
                j as int,
            ).push(v@[j as int]));
        }
        j = j + 1;
    }
    r
}

// --- bounded number parsing ---

/// A run of one to `maxlen` decimal digits whose value is at most `maxval`.
pub open spec fn parse_dec_spec(s: Seq<u8>, maxlen: nat, maxval: nat) -> Option<nat> {
    if 1 <= s.len() <= maxlen && all_dec_digits(s) && dec_value(s) <= maxval {
        Some(dec_value(s))
    } else {
        None
    }
}

/// A run of one to `maxlen` hexadecimal digits, either letter case.
pub open spec fn parse_hex_spec(s: Seq<u8>, maxlen: nat) -> Option<nat> {
    if 1 <= s.len() <= maxlen && all_hex_digits(s) {
        Some(hex_value(s))
    } else {
        None
    }
}

pub fn parse_dec(v: &Vec<u8>, maxlen: usize, maxval: u32) -> (r: Option<u32>)
    requires
        maxlen <= 5,
        maxval < 100000,
    ensures
        match r {
            Some(x) => parse_dec_spec(v@, maxlen as nat, maxval as nat) == Some(x as nat),
            None => parse_dec_spec(v@, maxlen as nat, maxval as nat) is None,
        },
{
    if v.len() == 0 || v.len() > maxlen {
        return None;
    }
    let mut acc: u32 = 0;
    let mut i: usize = 0;
    while i < v.len()
        invariant
            i <= v@.len() <= maxlen <= 5,
            acc == dec_value(v@.take(i as int)),
            forall|j: int| 0 <= j < i ==> is_dec_digit(v@[j]),
        decreases v@.len() - i,
    {
        let c = v[i];
        if c < 48 || c > 57 {
            return None;
        }
        proof {
            assert(all_dec_digits(v@.take(i as int)));
            lemma_dec_value_bound(v@.take(i as int), 4);
            assert(pow10(4) == 10000) by {
                reveal_with_fuel(pow10, 5);
            }
            assert(v@.take((i + 1) as int).drop_last() =~= v@.take(i as int));
            assert(v@.take((i + 1) as int).last() == v@[i as int]);
        }
        acc = acc * 10 + (c - 48) as u32;
        i = i + 1;
    }
    proof {
        assert(v@.take(v@.len() as int) =~= v@);
    }
    if acc <= maxval {
        Some(acc)
    } else {
        None
    }
}

pub fn parse_hex(v: &Vec<u8>, maxlen: usize) -> (r: Option<u32>)
    requires
        maxlen <= 4,
    ensures
        match r {
            Some(x) => parse_hex_spec(v@, maxlen as nat) == Some(x as nat),
            None => parse_hex_spec(v@, maxlen as nat) is None,
        },
{
    if v.len() == 0 || v.len() > maxlen {
        return None;
    }
    let mut acc: u32 = 0;
    let mut i: usize = 0;
    while i < v.len()
        invariant
            i <= v@.len() <= maxlen <= 4,
            acc == hex_value(v@.take(i as int)),
            forall|j: int| 0 <= j < i ==> is_hex_digit(v@[j]),
        decreases v@.len() - i,
    {
        let c = v[i];
        let d: u32 = if 48 <= c && c <= 57 {
            (c - 48) as u32
        } else if 97 <= c && c <= 102 {
            (c - 87) as u32
        } else if 65 <= c && c <= 70 {
            (c - 55) as u32
        } else {
            return None;
        };
        proof {
            assert(all_hex_digits(v@.take(i as int)));
            lemma_hex_value_bound(v@.take(i as int), 3);
            assert(pow16(3) == 4096) by {
                reveal_with_fuel(pow16, 4);
            }
            assert(v@.take((i + 1) as int).drop_last() =~= v@.take(i as int));
            assert(v@.take((i + 1) as int).last() == v@[i as int]);
        }
        acc = acc * 16 + d;
        i = i + 1;
    }
    proof {
        assert(v@.take(v@.len() as int) =~= v@);
    }
    Some(acc)
}

// --- number formatting ---

/// `s` read backwards.
pub open spec fn rev_seq(s: Seq<u8>) -> Seq<u8> {
    Seq::new(s.len(), |i: int| s[s.len() - 1 - i])
}

/// Appends the decimal text of `n` to `out`.
pub fn push_dec(out: &mut Vec<u8>, n: u16)
    ensures
        final(out)@ == old(out)@ + dec_text(n as nat),
{
    if n == 0 {
        out.push(48);
        proof {
            assert(out@ =~= old(out)@ + dec_text(0));
        }
        return;
    }
    let mut rev: Vec<u8> = Vec::new();
    let mut m: u16 = n;
    while m > 0
        invariant
            dec_digits(n as nat) == dec_digits(m as nat) + rev_seq(rev@),
        decreases m,
    {
        let d: u8 = (m % 10) as u8;
        proof {
            assert(rev_seq(rev@.push((48 + d) as u8)) =~= seq![(48 + d) as u8] + rev_seq(rev@));
            assert(dec_digits(m as nat) + rev_seq(rev@) =~= dec_digits((m / 10) as nat) + (seq![
                (48 + d) as u8,
            ] + rev_seq(rev@)));
        }
        rev.push(48 + d);
        m = m / 10;
    }
    proof {
        assert(dec_digits(n as nat) =~= rev_seq(rev@));
    }
    push_reversed(out, &rev);
}

/// Appends the lower-case hexadecimal text of `n` to `out`.
pub fn push_hex(out: &mut Vec<u8>, n: u16)
    ensures
        final(out)@ == old(out)@ + hex_text(n as nat),
{
    if n == 0 {
        out.push(48);
        proof {
            assert(out@ =~= old(out)@ + hex_text(0));
        }
        return;
    }
    let mut rev: Vec<u8> = Vec::new();
    let mut m: u16 = n;
    while m > 0
        invariant
            hex_digits(n as nat) == hex_digits(m as nat) + rev_seq(rev@),
        decreases m,
    {
        let r: u8 = (m % 16) as u8;
        let d: u8 = if r < 10 {
            48 + r
        } else {
            87 + r
        };
        proof {
            assert(rev_seq(rev@.push(d)) =~= seq![d] + rev_seq(rev@));
            assert(hex_digits(m as nat) + rev_seq(rev@) =~= hex_digits((m / 16) as nat) + (seq![d]
                + rev_seq(rev@)));
        }
        rev.push(d);
        m = m / 16;
    }
    proof {
        assert(hex_digits(n as nat) =~= rev_seq(rev@));
    }
    push_reversed(out, &rev);
}

// --- the address text form ---

/// Dot-separated decimal text of a list of octets.
pub open spec fn octets_text(os: Seq<u8>) -> Seq<u8>
    decreases os.len(),
{
    if os.len() == 0 {
        Seq::empty()
    } else if os.len() == 1 {
        dec_text(os[0] as nat)
    } else {
        dec_text(os[0] as nat) + seq![DOT_BYTE] + octets_text(os.skip(1))
    }
}

/// Colon-separated hexadecimal text of a list of 16-bit groups.
pub open spec fn groups_text(gs: Seq<u16>) -> Seq<u8>
    decreases gs.len(),
{
    if gs.len() == 0 {
        Seq::empty()
    } else if gs.len() == 1 {
        hex_text(gs[0] as nat)
    } else {
        hex_text(gs[0] as nat) + seq![COLON_BYTE] + groups_text(gs.skip(1))
    }
}

/// The wire text of a socket address: `a.b.c.d:port` or
/// `[g0:g1:g2:g3:g4:g5:g6:g7]:port`.
pub open spec fn addr_text(sa: SocketAddress) -> Seq<u8> {
    match sa.ip {
        IpAddress::V4(a, b, c, d) => octets_text(seq![a, b, c, d]) + seq![COLON_BYTE] + dec_text(
            sa.port as nat,
        ),
        IpAddress::V6(g0, g1, g2, g3, g4, g5, g6, g7) => seq![OPEN_BYTE] + groups_text(
            seq![g0, g1, g2, g3, g4, g5, g6, g7],
        ) + seq![CLOSE_BYTE, COLON_BYTE] + dec_text(sa.port as nat),
    }
}

// --- the address parser, as a specification ---

/// `k` dot-separated decimal octets, each at most 255.
pub open spec fn parse_octets_spec(s: Seq<u8>, k: nat) -> Option<Seq<u8>>
    decreases k,
{
    if k == 0 {
        None
    } else if k == 1 {
        match parse_dec_spec(s, 3, 255) {
            Some(v) => Some(seq![v as u8]),
            None => None,
        }
    } else {
        let i = find_byte_spec(s, DOT_BYTE);
        if i < s.len() {
            match (parse_dec_spec(s.take(i), 3, 255), parse_octets_spec(
                s.skip(i + 1),
                (k - 1) as nat,
            )) {
                (Some(v), Some(rest)) => Some(seq![v as u8] + rest),
                _ => None,
            }
        } else {
            None
        }
    }
}

/// `k` colon-separated hexadecimal groups of at most four digits.
pub open spec fn parse_groups_spec(s: Seq<u8>, k: nat) -> Option<Seq<u16>>
    decreases k,
{
    if k == 0 {
        None
    } else if k == 1 {
        match parse_hex_spec(s, 4) {
            Some(v) => Some(seq![v as u16]),
            None => None,
        }
    } else {
        let i = find_byte_spec(s, COLON_BYTE);
        if i < s.len() {
            match (parse_hex_spec(s.take(i), 4), parse_groups_spec(s.skip(i + 1), (k - 1) as nat)) {
                (Some(v), Some(rest)) => Some(seq![v as u16] + rest),
                _ => None,
            }
        } else {
            None
        }
    }
}

/// Reads a socket address out of its wire text: a bracketed address of
/// eight hexadecimal groups, or four decimal octets, then `:` and a port.
pub open spec fn parse_addr_spec(s: Seq<u8>) -> Option<SocketAddress> {
    if s.len() > 0 && s[0] == OPEN_BYTE {
        let j = find_byte_spec(s, CLOSE_BYTE);
        if 1 <= j && j < s.len() && j + 1 < s.len() && s[j + 1] == COLON_BYTE {
            match (parse_groups_spec(s.subrange(1, j), 8), parse_dec_spec(s.skip(j + 2), 5, 65535)) {
                (Some(g), Some(p)) => Some(
                    SocketAddress {
                        ip: IpAddress::V6(g[0], g[1], g[2], g[3], g[4], g[5], g[6], g[7]),
                        port: p as u16,
                    },
                ),
                _ => None,
            }
        } else {
            None
        }
    } else {
        let i = find_byte_spec(s, COLON_BYTE);
        if i < s.len() {
            match (parse_octets_spec(s.take(i), 4), parse_dec_spec(s.skip(i + 1), 5, 65535)) {
                (Some(o), Some(p)) => Some(
                    SocketAddress { ip: IpAddress::V4(o[0], o[1], o[2], o[3]), port: p as u16 },
                ),
                _ => None,
            }
        } else {
            None
        }
    }
}

// --- parsing inverts formatting ---

/// The decimal text of an octet is itself a valid octet field.
proof fn lemma_octet_field(n: nat)
    requires
        n <= 255,
    ensures
        parse_dec_spec(dec_text(n), 3, 255) == Some(n),
{
    lemma_dec_text_value(n);
    if n > 0 {
        assert(pow10(3) == 1000) by {
            reveal_with_fuel(pow10, 4);
        }
        lemma_dec_digits_len(n, 3, 1000);
    }
}

/// The decimal text of a port is itself a valid port field.
proof fn lemma_port_field(n: nat)
    requires
        n <= 65535,
    ensures
        parse_dec_spec(dec_text(n), 5, 65535) == Some(n),
{
    lemma_dec_text_value(n);
    if n > 0 {
        assert(pow10(5) == 100000) by {
            reveal_with_fuel(pow10, 6);
        }
        lemma_dec_digits_len(n, 5, 100000);
    }
}

/// The hexadecimal text of a group is itself a valid group field.
proof fn lemma_group_field(n: nat)
    requires
        n <= 65535,
    ensures
        parse_hex_spec(hex_text(n), 4) == Some(n),
{
    lemma_hex_text_value(n);
    if n > 0 {
        assert(pow16(4) == 65536) by {
            reveal_with_fuel(pow16, 5);
        }
        lemma_hex_digits_len(n, 4, 65536);
    }
}

/// Parsing the text of a list of octets gives the octets back; the text
/// consists of digits and dots only and begins with a digit.
pub proof fn lemma_octets_text_rt(os: Seq<u8>)
    requires
        os.len() >= 1,
    ensures
        parse_octets_spec(octets_text(os), os.len()) == Some(os),
        forall|i: int|
            0 <= i < octets_text(os).len() ==> (is_dec_digit(#[trigger] octets_text(os)[i])
                || octets_text(os)[i] == DOT_BYTE),
        octets_text(os).len() >= 1,
        is_dec_digit(octets_text(os)[0]),
    decreases os.len(),
{
    lemma_dec_text_value(os[0] as nat);
    lemma_octet_field(os[0] as nat);
    if os.len() == 1 {
        assert(os =~= seq![os[0]]);
        assert((os[0] as nat) as u8 == os[0]);
    } else {
        lemma_octets_text_rt(os.skip(1));
        let head = dec_text(os[0] as nat);
        let tail = octets_text(os.skip(1));
        let s = head + seq![DOT_BYTE] + tail;
        assert(octets_text(os) == s);
        assert(forall|j: int| 0 <= j < head.len() ==> s[j] == head[j] && s[j] != DOT_BYTE);
        assert(s[head.len() as int] == DOT_BYTE);
        lemma_find_byte_exact(s, DOT_BYTE, head.len() as int);
        assert(s.take(head.len() as int) =~= head);
        assert(s.skip(head.len() as int + 1) =~= tail);
        assert(seq![(os[0] as nat) as u8] + os.skip(1) =~= os);
    }
}

/// Parsing the text of a list of groups gives the groups back; the text
/// consists of hexadecimal digits and colons only.
pub proof fn lemma_groups_text_rt(gs: Seq<u16>)
    requires
        gs.len() >= 1,
    ensures
        parse_groups_spec(groups_text(gs), gs.len()) == Some(gs),
        forall|i: int|
            0 <= i < groups_text(gs).len() ==> (is_hex_digit(#[trigger] groups_text(gs)[i])
                || groups_text(gs)[i] == COLON_BYTE),
        groups_text(gs).len() >= 1,
    decreases gs.len(),
{
    lemma_hex_text_value(gs[0] as nat);
    lemma_group_field(gs[0] as nat);
    if gs.len() == 1 {
        assert(gs =~= seq![gs[0]]);
        assert((gs[0] as nat) as u16 == gs[0]);
    } else {
        lemma_groups_text_rt(gs.skip(1));
        let head = hex_text(gs[0] as nat);
        let tail = groups_text(gs.skip(1));
        let s = head + seq![COLON_BYTE] + tail;
        assert(groups_text(gs) == s);
        assert(forall|j: int| 0 <= j < head.len() ==> s[j] == head[j] && s[j] != COLON_BYTE);
        assert(s[head.len() as int] == COLON_BYTE);
        lemma_find_byte_exact(s, COLON_BYTE, head.len() as int);
        assert(s.take(head.len() as int) =~= head);
        assert(s.skip(head.len() as int + 1) =~= tail);
        assert(seq![(gs[0] as nat) as u16] + gs.skip(1) =~= gs);
    }
}

/// Parsing the text of a socket address gives the address back.
pub proof fn lemma_addr_text_rt(sa: SocketAddress)
    ensures
        parse_addr_spec(addr_text(sa)) == Some(sa),
{
    lemma_port_field(sa.port as nat);
    lemma_dec_text_value(sa.port as nat);
    match sa.ip {
        IpAddress::V4(a, b, c, d) => {
            let os = seq![a, b, c, d];
            lemma_octets_text_rt(os);
            let itext = octets_text(os);
            let ptext = dec_text(sa.port as nat);
            let s = itext + seq![COLON_BYTE] + ptext;
            assert(addr_text(sa) == s);
            assert(s[0] == itext[0]);
            assert(s[0] != OPEN_BYTE);
            assert(forall|j: int| 0 <= j < itext.len() ==> s[j] == itext[j] && s[j] != COLON_BYTE);
            assert(s[itext.len() as int] == COLON_BYTE);
            lemma_find_byte_exact(s, COLON_BYTE, itext.len() as int);
            assert(s.take(itext.len() as int) =~= itext);
            assert(s.skip(itext.len() as int + 1) =~= ptext);
            let parsed = parse_octets_spec(itext, 4);
            assert(parsed == Some(os));
            assert(os[0] == a && os[1] == b && os[2] == c && os[3] == d);
            assert((sa.port as nat) as u16 == sa.port);
        },
        IpAddress::V6(g0, g1, g2, g3, g4, g5, g6, g7) => {
            let gs = seq![g0, g1, g2, g3, g4, g5, g6, g7];
            lemma_groups_text_rt(gs);
            let gtext = groups_text(gs);
            let ptext = dec_text(sa.port as nat);
            let s = seq![OPEN_BYTE] + gtext + seq![CLOSE_BYTE, COLON_BYTE] + ptext;
            assert(addr_text(sa) == s);
            assert(s[0] == OPEN_BYTE);
            let j = 1 + gtext.len() as int;
            assert forall|x: int| 0 <= x < j implies s[x] != CLOSE_BYTE by {
                if x >= 1 {
                    assert(s[x] == gtext[x - 1]);
                }
            }
            assert(s[j] == CLOSE_BYTE);
            lemma_find_byte_exact(s, CLOSE_BYTE, j);
            assert(s[j + 1] == COLON_BYTE);
            assert(s.subrange(1, j) =~= gtext);
            assert(s.skip(j + 2) =~= ptext);
            let parsed = parse_groups_spec(gtext, 8);
            assert(parsed == Some(gs));
            assert(gs[0] == g0 && gs[1] == g1 && gs[2] == g2 && gs[3] == g3);
            assert(gs[4] == g4 && gs[5] == g5 && gs[6] == g6 && gs[7] == g7);
            assert((sa.port as nat) as u16 == sa.port);
        },
    }
}

// --- executable formatting and parsing ---

/// The text of a list of octets grows at the right, one octet at a time.
proof fn lemma_octets_text_snoc(os: Seq<u8>)
    requires
        os.len() >= 2,
    ensures
        octets_text(os) == octets_text(os.drop_last()) + seq![DOT_BYTE] + dec_text(
            os.last() as nat,
        ),
    decreases os.len(),
{
    if os.len() == 2 {
        assert(os.skip(1) =~= seq![os[1]]);
        assert(os.drop_last() =~= seq![os[0]]);
        assert(octets_text(os) =~= octets_text(os.drop_last()) + seq![DOT_BYTE] + dec_text(
            os.last() as nat,
        ));
    } else {
        lemma_octets_text_snoc(os.skip(1));
        assert(os.skip(1).drop_last() =~= os.drop_last().skip(1));
        assert(os.skip(1).last() == os.last());
        assert(os.drop_last()[0] == os[0]);
        assert(os.drop_last().len() >= 2);
        assert(octets_text(os) == dec_text(os[0] as nat) + seq![DOT_BYTE] + octets_text(
            os.skip(1),
        ));
        assert(octets_text(os.drop_last()) == dec_text(os[0] as nat) + seq![DOT_BYTE]
            + octets_text(os.drop_last().skip(1)));
        assert(octets_text(os) =~= octets_text(os.drop_last()) + seq![DOT_BYTE] + dec_text(
            os.last() as nat,
        ));
    }
}

/// The text of a list of groups grows at the right, one group at a time.
proof fn lemma_groups_text_snoc(gs: Seq<u16>)
    requires
        gs.len() >= 2,
    ensures
        groups_text(gs) == groups_text(gs.drop_last()) + seq![COLON_BYTE] + hex_text(
            gs.last() as nat,
        ),
    decreases gs.len(),
{
    if gs.len() == 2 {
        assert(gs.skip(1) =~= seq![gs[1]]);
        assert(gs.drop_last() =~= seq![gs[0]]);
        assert(groups_text(gs) =~= groups_text(gs.drop_last()) + seq![COLON_BYTE] + hex_text(
            gs.last() as nat,
        ));
    } else {
        lemma_groups_text_snoc(gs.skip(1));
        assert(gs.skip(1).drop_last() =~= gs.drop_last().skip(1));
        assert(gs.skip(1).last() == gs.last());
        assert(gs.drop_last()[0] == gs[0]);
        assert(gs.drop_last().len() >= 2);
        assert(groups_text(gs) == hex_text(gs[0] as nat) + seq![COLON_BYTE] + groups_text(
            gs.skip(1),
        ));
        assert(groups_text(gs.drop_last()) == hex_text(gs[0] as nat) + seq![COLON_BYTE]
            + groups_text(gs.drop_last().skip(1)));
        assert(groups_text(gs) =~= groups_text(gs.drop_last()) + seq![COLON_BYTE] + hex_text(
            gs.last() as nat,
        ));
    }
}

/// Appends the dot-separated decimal text of the octets in `os`.
fn push_octets(out: &mut Vec<u8>, os: &Vec<u8>)
    requires
        os@.len() >= 1,
    ensures
        final(out)@ == old(out)@ + octets_text(os@),
{
    push_dec(out, os[0] as u16);
    proof {
        assert(os@.take(1) =~= seq![os@[0]]);
    }
    let mut k: usize = 1;
    while k < os.len()
        invariant
            1 <= k <= os@.len(),
            out@ == old(out)@ + octets_text(os@.take(k as int)),
        decreases os@.len() - k,
    {
        out.push(DOT_BYTE);
        push_dec(out, os[k] as u16);
        proof {
            let p = os@.take((k + 1) as int);
            assert(p.drop_last() =~= os@.take(k as int));
            assert(p.last() == os@[k as int]);
            lemma_octets_text_snoc(p);
        }
        k = k + 1;
    }
    proof {
        assert(os@.take(os@.len() as int) =~= os@);
    }
}

/// Appends the colon-separated hexadecimal text of the groups in `gs`.
fn push_groups(out: &mut Vec<u8>, gs: &Vec<u16>)
    requires
        gs@.len() >= 1,
    ensures
        final(out)@ == old(out)@ + groups_text(gs@),
{
    push_hex(out, gs[0]);
    proof {
        assert(gs@.take(1) =~= seq![gs@[0]]);
    }
    let mut k: usize = 1;
    while k < gs.len()
        invariant
            1 <= k <= gs@.len(),
            out@ == old(out)@ + groups_text(gs@.take(k as int)),
        decreases gs@.len() - k,
    {
        out.push(COLON_BYTE);
        push_hex(out, gs[k]);
        proof {
            let p = gs@.take((k + 1) as int);
            assert(p.drop_last() =~= gs@.take(k as int));
            assert(p.last() == gs@[k as int]);
            lemma_groups_text_snoc(p);
        }
        k = k + 1;
    }
    proof {
        assert(gs@.take(gs@.len() as int) =~= gs@);
    }
}

impl SocketAddress {
    /// Writes the address in its wire text form.
    pub fn to_text(&self) -> (r: Vec<u8>)
        ensures
            r@ == addr_text(*self),
    {
        let mut out: Vec<u8> = Vec::new();
        match self.ip {
            IpAddress::V4(a, b, c, d) => {
                let mut os: Vec<u8> = Vec::new();
                os.push(a);
                os.push(b);
                os.push(c);
                os.push(d);
                proof {
                    assert(os@ =~= seq![a, b, c, d]);
                }
                push_octets(&mut out, &os);
                out.push(COLON_BYTE);
                push_dec(&mut out, self.port);
                proof {
                    assert(out@ =~= octets_text(seq![a, b, c, d]) + seq![COLON_BYTE] + dec_text(
                        self.port as nat,
                    ));
                }
            },
            IpAddress::V6(g0, g1, g2, g3, g4, g5, g6, g7) => {
                let mut gs: Vec<u16> = Vec::new();
                gs.push(g0);
                gs.push(g1);
                gs.push(g2);
                gs.push(g3);
                gs.push(g4);
                gs.push(g5);
                gs.push(g6);
                gs.push(g7);
                proof {
                    assert(gs@ =~= seq![g0, g1, g2, g3, g4, g5, g6, g7]);
                }
                out.push(OPEN_BYTE);
                push_groups(&mut out, &gs);
                out.push(CLOSE_BYTE);
                out.push(COLON_BYTE);
                push_dec(&mut out, self.port);
                proof {
                    assert(out@ =~= seq![OPEN_BYTE] + groups_text(seq![
                        g0,
                        g1,
                        g2,
                        g3,
                        g4,
                        g5,
                        g6,
                        g7,
                    ]) + seq![CLOSE_BYTE, COLON_BYTE] + dec_text(self.port as nat));
                }
            },
        }
        out
    }

    /// Reads an address back out of its wire text form.
    pub fn from_text(v: &Vec<u8>) -> (r: Option<SocketAddress>)
        ensures
            r == parse_addr_spec(v@),
    {
        if v.len() > 0 && v[0] == OPEN_BYTE {
            let j = find_byte(v, CLOSE_BYTE);
            if 1 <= j && j < v.len() && j + 1 < v.len() && v[j + 1] == COLON_BYTE {
                let gtext = subvec(v, 1, j);
                let ptext = subvec(v, j + 2, v.len());
                proof {
                    assert(ptext@ =~= v@.skip(j + 2));
                }
                match (parse_groups(&gtext, 8), parse_dec(&ptext, 5, 65535)) {
                    (Some(g), Some(p)) => Some(
                        SocketAddress {
                            ip: IpAddress::V6(g[0], g[1], g[2], g[3], g[4], g[5], g[6], g[7]),
                            port: p as u16,
                        },
                    ),
                    _ => None,
                }
            } else {
                None
            }
        } else {
            let i = find_byte(v, COLON_BYTE);
            if i < v.len() {
                let itext = subvec(v, 0, i);
                let ptext = subvec(v, i + 1, v.len());
                proof {
                    assert(itext@ =~= v@.take(i as int));
                    assert(ptext@ =~= v@.skip(i + 1));
                }
                match (parse_octets(&itext, 4), parse_dec(&ptext, 5, 65535)) {
                    (Some(o), Some(p)) => Some(
                        SocketAddress { ip: IpAddress::V4(o[0], o[1], o[2], o[3]), port: p as u16 },
                    ),
                    _ => None,
                }
            } else {
                None
            }
        }
    }
}

/// Reads `k` dot-separated decimal octets.
fn parse_octets(v: &Vec<u8>, k: usize) -> (r: Option<Vec<u8>>)
    requires
        1 <= k <= 8,
    ensures
        match r {
            Some(o) => parse_octets_spec(v@, k as nat) == Some(o@) && o@.len() == k,
            None => parse_octets_spec(v@, k as nat) is None,
        },
    decreases k,
{
    if k == 1 {
        match parse_dec(v, 3, 255) {
            Some(x) => {
                let mut o: Vec<u8> = Vec::new();
                o.push(x as u8);
                proof {
                    assert(o@ =~= seq![((x as nat) as u8)]);
                }
                Some(o)
            },
            None => None,
        }
    } else {
        let i = find_byte(v, DOT_BYTE);
        if i < v.len() {
            let head = subvec(v, 0, i);
            let tail = subvec(v, i + 1, v.len());
            proof {
                assert(head@ =~= v@.take(i as int));
                assert(tail@ =~= v@.skip(i + 1));
            }
            match (parse_dec(&head, 3, 255), parse_octets(&tail, k - 1)) {
                (Some(x), Some(rest)) => {
                    let mut o: Vec<u8> = Vec::new();
                    o.push(x as u8);
                    let mut rest = rest;
                    o.append(&mut rest);
                    proof {
                        assert(o@ =~= seq![((x as nat) as u8)] + parse_octets_spec(
                            v@.skip(i + 1),
                            (k - 1) as nat,
                        ).unwrap());
                    }
                    Some(o)
                },
                _ => None,
            }
        } else {
            None
        }
    }
}

/// Reads `k` colon-separated hexadecimal groups.
fn parse_groups(v: &Vec<u8>, k: usize) -> (r: Option<Vec<u16>>)
    requires
        1 <= k <= 8,
    ensures
        match r {
            Some(g) => parse_groups_spec(v@, k as nat) == Some(g@) && g@.len() == k,
            None => parse_groups_spec(v@, k as nat) is None,
        },
    decreases k,
{
    if k == 1 {
        match parse_hex(v, 4) {
            Some(x) => {
                let mut g: Vec<u16> = Vec::new();
                g.push(x as u16);
                proof {
                    assert(g@ =~= seq![((x as nat) as u16)]);
                }
                Some(g)
            },
            None => None,
        }
    } else {
        let i = find_byte(v, COLON_BYTE);
        if i < v.len() {
            let head = subvec(v, 0, i);
            let tail = subvec(v, i + 1, v.len());
            proof {
                assert(head@ =~= v@.take(i as int));
                assert(tail@ =~= v@.skip(i + 1));
            }
            match (parse_hex(&head, 4), parse_groups(&tail, k - 1)) {
                (Some(x), Some(rest)) => {
                    let mut g: Vec<u16> = Vec::new();
                    g.push(x as u16);
                    let mut rest = rest;
                    g.append(&mut rest);
                    proof {
                        assert(g@ =~= seq![((x as nat) as u16)] + parse_groups_spec(
                            v@.skip(i + 1),
                            (k - 1) as nat,
                        ).unwrap());
                    }
                    Some(g)
                },
                _ => None,
            }
        } else {
            None
        }
    }
}

/// Appends `rev` back to front onto `out`.
fn push_reversed(out: &mut Vec<u8>, rev: &Vec<u8>)
    ensures
        final(out)@ == old(out)@ + rev_seq(rev@),
{
    let mut k: usize = 0;
    while k < rev.len()
        invariant
            k <= rev@.len(),
            out@ == old(out)@ + rev_seq(rev@).take(k as int),
        decreases rev@.len() - k,
    {
        out.push(rev[rev.len() - 1 - k]);
        proof {
            assert(rev_seq(rev@).take((k + 1) as int) =~= rev_seq(rev@).take(k as int).push(
                rev@[rev@.len() - 1 - k],
            ));
        }
        k = k + 1;
    }
    proof {
        assert(rev_seq(rev@).take(rev@.len() as int) =~= rev_seq(rev@));
        assert(out@ =~= old(out)@ + rev_seq(rev@));
    }
}

} // verus!
