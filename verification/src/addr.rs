//! IP addresses and socket addresses as plain numbers, and their written form.

use vstd::prelude::*;
use crate::text::{
    all_digits, all_hex_digits, contains, is_space, lemma_trimmed_unchanged, no_spaces, hex_digit_value, hex_value, is_digit,
    lemma_find_first, lemma_find_none, lemma_hex_group_round_trip, lemma_hex_text_digits,
    lemma_split_append, lemma_split_one, occurs_at, lemma_decimal_text_digits, lemma_decimal_text_shape,
    lemma_parse_decimal_text, lemma_rfind_last, lemma_split_last_part, lemma_split_part,
    decimal_text, digits_value, find, find_char, find_str,
    hex_group, hex_text, parse_hex_group, parse_number, parse_unsigned, push_decimal, push_hex,
    rfind_char, rfind_in, slice_chars, split, split_at_char, trim, trimmed, views,
};

verus! {

/// An IP address, held as plain numbers.
#[derive(Clone, Copy, Debug, PartialEq, Eq, Hash, Structural)]
pub enum IpAddress {
    /// The four octets, in the order in which they are written.
    V4(u8, u8, u8, u8),
    /// The 128 bits as one number, the first group written in the highest bits.
    V6(u128),
}

/// An address and a port.
#[derive(Clone, Copy, Debug, PartialEq, Eq, Hash, Structural)]
pub struct SocketAddress {
    pub ip: IpAddress,
    pub port: u16,
}

/// The `i`-th of the eight 16-bit groups of an IPv6 address, counted from the left.
pub open spec fn v6_group(bits: u128, i: int) -> u16
    recommends
        0 <= i < 8,
{
    ((bits >> (((7 - i) * 16) as u128)) & 0xffff) as u16
}

/// The private and loopback IPv4 ranges: 10/8, 172.16/12, 192.168/16 and 127/8.
pub open spec fn is_private_v4(a: u8, b: u8) -> bool {
    a == 10 || (a == 172 && 16 <= b <= 31) || (a == 192 && b == 168) || a == 127
}

impl IpAddress {
    /// Whether a packet from this address counts as sent by this host: its source lies in
    /// one of the private or loopback IPv4 ranges. No IPv6 address does.
    pub open spec fn is_local_source(self) -> bool {
        match self {
            IpAddress::V4(a, b, _, _) => is_private_v4(a, b),
            IpAddress::V6(_) => false,
        }
    }

    pub open spec fn spec_is_loopback(&self) -> bool {
        match *self {
            IpAddress::V4(a, _, _, _) => a == 127,
            IpAddress::V6(bits) => bits == 1,
        }
    }

    pub open spec fn spec_is_unspecified(&self) -> bool {
        match *self {
            IpAddress::V4(a, b, c, d) => a == 0 && b == 0 && c == 0 && d == 0,
            IpAddress::V6(bits) => bits == 0,
        }
    }

    pub open spec fn spec_is_ipv4(&self) -> bool {
        self is V4
    }

    /// The written form: dotted decimal for IPv4, the compressed groups for IPv6.
    pub open spec fn text(self) -> Seq<char> {
        match self {
            IpAddress::V4(a, b, c, d) => v4_text(a, b, c, d),
            IpAddress::V6(bits) => v6_text(bits),
        }
    }

    pub fn is_outgoing_source(&self) -> (r: bool)
        ensures
            r == self.is_local_source(),
    {
        match self {
            IpAddress::V4(a, b, _, _) => {
                *a == 10 || (*a == 172 && *b >= 16 && *b <= 31) || (*a == 192 && *b == 168) || *a
                    == 127
            },
            IpAddress::V6(_) => false,
        }
    }

    #[verifier::when_used_as_spec(spec_is_loopback)]
    pub fn is_loopback(&self) -> (r: bool)
        ensures
            r == self.spec_is_loopback(),
    {
        match self {
            IpAddress::V4(a, _, _, _) => *a == 127,
            IpAddress::V6(bits) => *bits == 1,
        }
    }

    #[verifier::when_used_as_spec(spec_is_unspecified)]
    pub fn is_unspecified(&self) -> (r: bool)
        ensures
            r == self.spec_is_unspecified(),
    {
        match self {
            IpAddress::V4(a, b, c, d) => *a == 0 && *b == 0 && *c == 0 && *d == 0,
            IpAddress::V6(bits) => *bits == 0,
        }
    }

    #[verifier::when_used_as_spec(spec_is_ipv4)]
    pub fn is_ipv4(&self) -> (r: bool)
        ensures
            r == self.spec_is_ipv4(),
    {
        match self {
            IpAddress::V4(_, _, _, _) => true,
            IpAddress::V6(_) => false,
        }
    }

    /// Appends the written form of the address to `out`.
    pub fn push_text(&self, out: &mut Vec<char>)
        ensures
            final(out)@ == old(out)@ + self.text(),
    {
        match self {
            IpAddress::V4(a, b, c, d) => {
                push_v4(out, *a, *b, *c, *d);
            },
            IpAddress::V6(bits) => {
                push_v6(out, *bits);
            },
        }
    }
}

/// Dotted decimal: the four octets in decimal, with a dot between them.
pub open spec fn v4_text(a: u8, b: u8, c: u8, d: u8) -> Seq<char> {
    decimal_text(a as nat) + seq!['.'] + decimal_text(b as nat) + seq!['.'] + decimal_text(
        c as nat,
    ) + seq!['.'] + decimal_text(d as nat)
}

pub fn push_v4(out: &mut Vec<char>, a: u8, b: u8, c: u8, d: u8)
    ensures
        final(out)@ == old(out)@ + v4_text(a, b, c, d),
{
    push_decimal(out, a as u64);
    out.push('.');
    push_decimal(out, b as u64);
    out.push('.');
    push_decimal(out, c as u64);
    out.push('.');
    push_decimal(out, d as u64);
    assert(out@ =~= old(out)@ + v4_text(a, b, c, d));
}

/// The number of zero groups in a row that start at group `i`.
pub open spec fn zero_run(bits: u128, i: int) -> int
    decreases 8 - i,
{
    if 0 <= i < 8 && v6_group(bits, i) == 0 {
        1 + zero_run(bits, i + 1)
    } else {
        0
    }
}

/// Where the longest run of zero groups at or after group `i` starts, and its length;
/// of two runs of one length the one further left. The length is 0 where there is none.
pub open spec fn longest_zero_run(bits: u128, i: int) -> (int, int)
    decreases 8 - i,
{
    if 0 <= i < 8 {
        let here = zero_run(bits, i);
        let rest = longest_zero_run(bits, i + 1);
        if here > 0 && here >= rest.1 {
            (i, here)
        } else {
            rest
        }
    } else {
        (8, 0)
    }
}

/// Groups `lo` up to `hi` in small hexadecimal digits, with a colon between them.
pub open spec fn groups_text(bits: u128, lo: int, hi: int) -> Seq<char>
    decreases hi - lo,
{
    if lo >= hi {
        Seq::empty()
    } else if lo + 1 == hi {
        hex_text(v6_group(bits, lo) as nat, false)
    } else {
        groups_text(bits, lo, hi - 1) + seq![':'] + hex_text(v6_group(bits, hi - 1) as nat, false)
    }
}

/// Whether the address is an IPv4 address mapped into IPv6 (`::ffff:a.b.c.d`).
pub open spec fn is_v4_mapped(bits: u128) -> bool {
    (bits >> 32) == 0xffff
}

/// The written form of an IPv6 address: a mapped IPv4 address as `::ffff:` and dotted
/// decimal; else the eight groups, the longest run of two or more zero groups replaced
/// by `::`.
pub open spec fn v6_text(bits: u128) -> Seq<char> {
    if is_v4_mapped(bits) {
        seq![':', ':', 'f', 'f', 'f', 'f', ':'] + v4_text(
            ((bits >> 24) & 0xff) as u8,
            ((bits >> 16) & 0xff) as u8,
            ((bits >> 8) & 0xff) as u8,
            (bits & 0xff) as u8,
        )
    } else {
        let run = longest_zero_run(bits, 0);
        if run.1 > 1 {
            groups_text(bits, 0, run.0) + seq![':', ':'] + groups_text(bits, run.0 + run.1, 8)
        } else {
            groups_text(bits, 0, 8)
        }
    }
}

/// The `i`-th group of the address.
pub fn group_of(bits: u128, i: usize) -> (g: u16)
    requires
        i < 8,
    ensures
        g == v6_group(bits, i as int),
{
    let shift: u128 = ((7 - i) * 16) as u128;
    ((bits >> shift) & 0xffff) as u16
}

fn push_groups(out: &mut Vec<char>, bits: u128, lo: usize, hi: usize)
    requires
        lo <= hi <= 8,
    ensures
        final(out)@ == old(out)@ + groups_text(bits, lo as int, hi as int),
{
    let mut i: usize = lo;
    while i < hi
        invariant
            lo <= i <= hi <= 8,
            out@ == old(out)@ + groups_text(bits, lo as int, i as int),
        decreases hi - i,
    {
        if i > lo {
            out.push(':');
        }
        let g = group_of(bits, i);
        push_hex(out, g as u64, false);
        i = i + 1;
        assert(out@ =~= old(out)@ + groups_text(bits, lo as int, i as int));
    }
}

fn zero_run_at(bits: u128, i: usize) -> (n: usize)
    requires
        i <= 8,
    ensures
        n == zero_run(bits, i as int),
        i + n <= 8,
    decreases 8 - i,
{
    if i < 8 && group_of(bits, i) == 0 {
        1 + zero_run_at(bits, i + 1)
    } else {
        0
    }
}

fn find_longest_zero_run(bits: u128, i: usize) -> (r: (usize, usize))
    requires
        i <= 8,
    ensures
        (r.0 as int, r.1 as int) == longest_zero_run(bits, i as int),
        i <= r.0,
        r.0 + r.1 <= 8,
    decreases 8 - i,
{
    if i < 8 {
        let here = zero_run_at(bits, i);
        let rest = find_longest_zero_run(bits, i + 1);
        if here > 0 && here >= rest.1 {
            (i, here)
        } else {
            rest
        }
    } else {
        (8, 0)
    }
}

pub fn push_v6(out: &mut Vec<char>, bits: u128)
    ensures
        final(out)@ == old(out)@ + v6_text(bits),
{
    if (bits >> 32) == 0xffff {
        out.push(':');
        out.push(':');
        out.push('f');
        out.push('f');
        out.push('f');
        out.push('f');
        out.push(':');
        push_v4(
            out,
            ((bits >> 24) & 0xff) as u8,
            ((bits >> 16) & 0xff) as u8,
            ((bits >> 8) & 0xff) as u8,
            (bits & 0xff) as u8,
        );
        assert(out@ =~= old(out)@ + v6_text(bits));
    } else {
        let run = find_longest_zero_run(bits, 0);
        if run.1 > 1 {
            push_groups(out, bits, 0, run.0);
            out.push(':');
            out.push(':');
            push_groups(out, bits, run.0 + run.1, 8);
            assert(out@ =~= old(out)@ + v6_text(bits));
        } else {
            push_groups(out, bits, 0, 8);
        }
    }
}

impl SocketAddress {
    /// The written form: `address:port`, an IPv6 address in square brackets.
    pub open spec fn text(self) -> Seq<char> {
        match self.ip {
            IpAddress::V4(a, b, c, d) => v4_text(a, b, c, d) + seq![':'] + decimal_text(
                self.port as nat,
            ),
            IpAddress::V6(bits) => seq!['['] + v6_text(bits) + seq![']', ':'] + decimal_text(
                self.port as nat,
            ),
        }
    }

    pub fn new(ip: IpAddress, port: u16) -> (r: Self)
        ensures
            r.ip == ip,
            r.port == port,
    {
        SocketAddress { ip, port }
    }

    /// Appends the written form of the address to `out`.
    pub fn push_text(&self, out: &mut Vec<char>)
        ensures
            final(out)@ == old(out)@ + self.text(),
    {
        match self.ip {
            IpAddress::V4(a, b, c, d) => {
                push_v4(out, a, b, c, d);
                out.push(':');
                push_decimal(out, self.port as u64);
                assert(out@ =~= old(out)@ + self.text());
            },
            IpAddress::V6(bits) => {
                out.push('[');
                push_v6(out, bits);
                out.push(']');
                out.push(':');
                push_decimal(out, self.port as u64);
                assert(out@ =~= old(out)@ + self.text());
            },
        }
    }

    /// The written form as a string.
    pub fn to_text(&self) -> (s: String)
        ensures
            s@ == self.text(),
    {
        let mut out: Vec<char> = Vec::new();
        self.push_text(&mut out);
        assert(out@ =~= self.text());
        crate::text::from_chars(&out)
    }
}


/// The number that `p` writes as one part of a dotted IPv4 address: one to three digits
/// without a zero before them, no more than 255.
pub open spec fn octet_of(p: Seq<char>) -> Option<u8> {
    if 1 <= p.len() <= 3 && all_digits(p) && (p.len() == 1 || p[0] != '0') && digits_value(p)
        <= 255 {
        Some(digits_value(p) as u8)
    } else {
        None
    }
}

/// Reads one part of a dotted IPv4 address.
pub fn parse_octet(p: &Vec<char>) -> (r: Option<u8>)
    ensures
        r == octet_of(p@),
{
    if p.len() < 1 || p.len() > 3 {
        return None;
    }
    if p[0] == '+' {
        assert(!crate::text::is_digit(p@[0]));
        return None;
    }
    if p.len() > 1 && p[0] == '0' {
        return None;
    }
    match parse_number(p, 255) {
        Some(n) => Some(n as u8),
        None => None,
    }
}

/// The IPv4 address that `s` writes: four parts with a dot between them.
pub open spec fn v4_of(s: Seq<char>) -> Option<IpAddress> {
    let parts = split(s, '.');
    if parts.len() == 4 {
        match (octet_of(parts[0]), octet_of(parts[1]), octet_of(parts[2]), octet_of(parts[3])) {
            (Some(a), Some(b), Some(c), Some(d)) => Some(IpAddress::V4(a, b, c, d)),
            _ => None,
        }
    } else {
        None
    }
}

/// Reads a dotted IPv4 address.
pub fn parse_v4(s: &Vec<char>) -> (r: Option<IpAddress>)
    ensures
        r == v4_of(s@),
{
    let parts = split_at_char(s, '.');
    if parts.len() != 4 {
        return None;
    }
    assert(views(parts@)[0] == parts@[0]@);
    assert(views(parts@)[1] == parts@[1]@);
    assert(views(parts@)[2] == parts@[2]@);
    assert(views(parts@)[3] == parts@[3]@);
    match (
        parse_octet(&parts[0]),
        parse_octet(&parts[1]),
        parse_octet(&parts[2]),
        parse_octet(&parts[3]),
    ) {
        (Some(a), Some(b), Some(c), Some(d)) => Some(IpAddress::V4(a, b, c, d)),
        _ => None,
    }
}

/// The numbers that the parts write, where each part is a group of up to four
/// hexadecimal digits.
pub open spec fn plain_groups(parts: Seq<Seq<char>>) -> Option<Seq<u16>>
    decreases parts.len(),
{
    if parts.len() == 0 {
        Some(Seq::empty())
    } else {
        match (plain_groups(parts.drop_last()), hex_group(parts.last())) {
            (Some(front), Some(g)) => Some(front.push(g)),
            _ => None,
        }
    }
}

/// The two groups that an IPv4 address stands for at the end of an IPv6 address.
pub open spec fn v4_groups(a: u8, b: u8, c: u8, d: u8) -> Seq<u16> {
    seq![(a * 256 + b) as u16, (c * 256 + d) as u16]
}

/// The numbers that the parts write, where the last part may be a dotted IPv4 address,
/// which stands for two groups.
pub open spec fn groups_of(parts: Seq<Seq<char>>) -> Option<Seq<u16>> {
    if parts.len() > 0 && v4_of(parts.last()) is Some {
        match (plain_groups(parts.drop_last()), v4_of(parts.last())) {
            (Some(front), Some(IpAddress::V4(a, b, c, d))) => Some(front + v4_groups(a, b, c, d)),
            _ => None,
        }
    } else {
        plain_groups(parts)
    }
}

/// `n` groups of zero.
pub open spec fn zero_groups(n: int) -> Seq<u16> {
    Seq::new(
        if n > 0 {
            n as nat
        } else {
            0
        },
        |i: int| 0u16,
    )
}

/// The eight groups that `s` writes as an IPv6 address: groups of hexadecimal digits
/// with a colon between them, where `::` may stand once for one or more groups of zero,
/// and a dotted IPv4 address may stand for the last two groups.
pub open spec fn v6_groups_of(s: Seq<char>) -> Option<Seq<u16>> {
    match find(s, seq![':', ':']) {
        Some(k) => {
            let left = s.subrange(0, k);
            let right = s.subrange(k + 2, s.len() as int);
            let head = if left.len() == 0 {
                Some(Seq::empty())
            } else {
                plain_groups(split(left, ':'))
            };
            let tail = if right.len() == 0 {
                Some(Seq::empty())
            } else {
                groups_of(split(right, ':'))
            };
            match (head, tail) {
                (Some(h), Some(t)) => if h.len() + t.len() <= 7 {
                    Some(h + zero_groups(8 - h.len() - t.len()) + t)
                } else {
                    None
                },
                _ => None,
            }
        },
        None => match groups_of(split(s, ':')) {
            Some(g) => if g.len() == 8 {
                Some(g)
            } else {
                None
            },
            None => None,
        },
    }
}

/// The number that the groups write together, the first group the highest.
pub open spec fn groups_value(groups: Seq<u16>) -> nat
    decreases groups.len(),
{
    if groups.len() == 0 {
        0
    } else {
        groups_value(groups.drop_last()) * 65536 + groups.last() as nat
    }
}

/// The IPv6 address that `s` writes.
pub open spec fn v6_of(s: Seq<char>) -> Option<IpAddress> {
    match v6_groups_of(s) {
        Some(g) => Some(IpAddress::V6(groups_value(g) as u128)),
        None => None,
    }
}

fn parse_plain_groups(parts: &Vec<Vec<char>>, n: usize) -> (r: Option<Vec<u16>>)
    requires
        n <= parts.len(),
    ensures
        match r {
            Some(g) => plain_groups(views(parts@).subrange(0, n as int)) == Some(g@),
            None => plain_groups(views(parts@).subrange(0, n as int)) is None,
        },
{
    let ghost ps = views(parts@);
    let mut out: Vec<u16> = Vec::new();
    let mut i: usize = 0;
    assert(ps.subrange(0, 0) =~= Seq::<Seq<char>>::empty());
    while i < n
        invariant
            i <= n <= parts.len(),
            ps == views(parts@),
            plain_groups(ps.subrange(0, i as int)) == Some(out@),
        decreases n - i,
    {
        assert(ps.subrange(0, i + 1).drop_last() =~= ps.subrange(0, i as int));
        assert(ps.subrange(0, i + 1).last() == parts@[i as int]@);
        match parse_hex_group(&parts[i]) {
            Some(g) => {
                out.push(g);
            },
            None => {
                proof {
                    lemma_plain_groups_prefix(ps.subrange(0, n as int), i + 1);
                    assert(ps.subrange(0, n as int).subrange(0, i + 1) =~= ps.subrange(0, i + 1));
                }
                return None;
            },
        }
        i = i + 1;
    }
    Some(out)
}

proof fn lemma_plain_groups_prefix(parts: Seq<Seq<char>>, k: int)
    requires
        0 <= k <= parts.len(),
        plain_groups(parts.subrange(0, k)) is None,
    ensures
        plain_groups(parts) is None,
    decreases parts.len(),
{
    if k < parts.len() {
        assert(parts.drop_last().subrange(0, k) =~= parts.subrange(0, k));
        lemma_plain_groups_prefix(parts.drop_last(), k);
    } else {
        assert(parts.subrange(0, k) =~= parts);
    }
}

fn parse_groups(parts: &Vec<Vec<char>>) -> (r: Option<Vec<u16>>)
    ensures
        match r {
            Some(g) => groups_of(views(parts@)) == Some(g@),
            None => groups_of(views(parts@)) is None,
        },
{
    let ghost ps = views(parts@);
    assert(ps.subrange(0, ps.len() as int) =~= ps);
    if parts.len() > 0 {
        let last = parts.len() - 1;
        assert(ps.last() == parts@[last as int]@);
        assert(ps.drop_last() =~= ps.subrange(0, last as int));
        match parse_v4(&parts[last]) {
            Some(IpAddress::V4(a, b, c, d)) => {
                match parse_plain_groups(parts, last) {
                    Some(front) => {
                        let mut out = front;
                        out.push((a as u16) * 256 + b as u16);
                        out.push((c as u16) * 256 + d as u16);
                        assert(out@ =~= front@ + v4_groups(a, b, c, d));
                        return Some(out);
                    },
                    None => {
                        return None;
                    },
                }
            },
            _ => {},
        }
    }
    parse_plain_groups(parts, parts.len())
}

/// The powers of 65536.
pub open spec fn pow16(i: nat) -> nat
    decreases i,
{
    if i == 0 {
        1
    } else {
        pow16((i - 1) as nat) * 65536
    }
}

fn combine_groups(groups: &Vec<u16>) -> (r: u128)
    requires
        groups@.len() == 8,
    ensures
        r == groups_value(groups@),
{
    let mut acc: u128 = 0;
    let mut i: usize = 0;
    assert(groups@.subrange(0, 0) =~= Seq::<u16>::empty());
    proof {
        lemma_pow16_of_eight();
    }
    while i < 8
        invariant
            i <= 8,
            groups@.len() == 8,
            acc == groups_value(groups@.subrange(0, i as int)),
            acc < pow16(i as nat),
            pow16(8) == 0x1_0000_0000_0000_0000_0000_0000_0000_0000,
        decreases 8 - i,
    {
        assert(groups@.subrange(0, i + 1).drop_last() =~= groups@.subrange(0, i as int));
        assert(groups@.subrange(0, i + 1).last() == groups@[i as int]);
        proof {
            lemma_pow16_grows((i + 1) as nat, 8);
            assert(pow16((i + 1) as nat) == pow16(i as nat) * 65536);
        }
        acc = acc * 65536 + groups[i] as u128;
        i = i + 1;
    }
    assert(groups@.subrange(0, i as int) =~= groups@);
    acc
}

proof fn lemma_pow16_of_eight()
    ensures
        pow16(8) == 0x1_0000_0000_0000_0000_0000_0000_0000_0000,
{
    assert(pow16(0) == 1);
    assert(pow16(1) == 0x1_0000);
    assert(pow16(2) == 0x1_0000_0000);
    assert(pow16(3) == 0x1_0000_0000_0000);
    assert(pow16(4) == 0x1_0000_0000_0000_0000);
    assert(pow16(5) == 0x1_0000_0000_0000_0000_0000);
    assert(pow16(6) == 0x1_0000_0000_0000_0000_0000_0000);
    assert(pow16(7) == 0x1_0000_0000_0000_0000_0000_0000_0000);
}

proof fn lemma_pow16_grows(i: nat, j: nat)
    requires
        i <= j,
    ensures
        pow16(i) <= pow16(j),
        pow16(i) >= 1,
    decreases j,
{
    if i < j {
        lemma_pow16_grows(i, (j - 1) as nat);
    } else if i > 0 {
        lemma_pow16_grows((i - 1) as nat, (j - 1) as nat);
    }
}

/// Reads an IPv6 address.
pub fn parse_v6(s: &Vec<char>) -> (r: Option<IpAddress>)
    ensures
        r == v6_of(s@),
{
    let colons = "::";
    proof {
        reveal_strlit("::");
        assert(colons@.len() == 2);
        assert(colons@ =~= seq![':', ':']);
    }
    let groups: Vec<u16> = match find_str(s, colons) {
        Some(k) => {
            let n = s.len();
            assert(k + 2 <= n);
            let left = slice_chars(s, 0, k);
            let right = slice_chars(s, k + 2, n);
            let head: Vec<u16> = if left.len() == 0 {
                Vec::new()
            } else {
                let parts = split_at_char(&left, ':');
                assert(views(parts@).subrange(0, parts@.len() as int) =~= views(parts@));
                match parse_plain_groups(&parts, parts.len()) {
                    Some(h) => h,
                    None => {
                        return None;
                    },
                }
            };
            let tail: Vec<u16> = if right.len() == 0 {
                Vec::new()
            } else {
                let parts = split_at_char(&right, ':');
                match parse_groups(&parts) {
                    Some(t) => t,
                    None => {
                        return None;
                    },
                }
            };
            if head.len() > 7 || tail.len() > 7 - head.len() {
                return None;
            }
            let mut out: Vec<u16> = Vec::new();
            let mut i: usize = 0;
            while i < head.len()
                invariant
                    i <= head.len(),
                    out@ == head@.subrange(0, i as int),
                decreases head.len() - i,
            {
                out.push(head[i]);
                i = i + 1;
                assert(out@ =~= head@.subrange(0, i as int));
            }
            assert(head@.subrange(0, i as int) =~= head@);
            let zeros: usize = 8 - head.len() - tail.len();
            let mut z: usize = 0;
            while z < zeros
                invariant
                    z <= zeros,
                    out@ == head@ + zero_groups(z as int),
                decreases zeros - z,
            {
                out.push(0);
                z = z + 1;
                assert(out@ =~= head@ + zero_groups(z as int));
            }
            let mut j: usize = 0;
            while j < tail.len()
                invariant
                    j <= tail.len(),
                    out@ == head@ + zero_groups(zeros as int) + tail@.subrange(0, j as int),
                decreases tail.len() - j,
            {
                out.push(tail[j]);
                j = j + 1;
                assert(out@ =~= head@ + zero_groups(zeros as int) + tail@.subrange(0, j as int));
            }
            assert(tail@.subrange(0, j as int) =~= tail@);
            out
        },
        None => {
            let parts = split_at_char(s, ':');
            match parse_groups(&parts) {
                Some(g) => {
                    if g.len() != 8 {
                        return None;
                    }
                    g
                },
                None => {
                    return None;
                },
            }
        },
    };
    Some(IpAddress::V6(combine_groups(&groups)))
}

/// The address that `h` writes as the host of a socket address: `*` for any address, an
/// IPv6 address in square brackets, or a dotted IPv4 address.
pub open spec fn host_of(h: Seq<char>) -> Option<IpAddress> {
    if h == seq!['*'] {
        Some(IpAddress::V4(0, 0, 0, 0))
    } else if h.len() >= 2 && h[0] == '[' && h.last() == ']' {
        v6_of(h.subrange(1, h.len() - 1))
    } else {
        v4_of(h)
    }
}

/// The port that `p` writes: `*` for any port, which is 0, or digits that write a number
/// up to 65535.
pub open spec fn port_of(p: Seq<char>) -> Option<u16> {
    if p == seq!['*'] {
        Some(0)
    } else if p.len() > 0 && p[0] != '+' {
        match parse_unsigned(p, 65535) {
            Some(n) => Some(n as u16),
            None => None,
        }
    } else {
        None
    }
}

/// The socket address that `s` writes: a host and a port with a colon between them.
pub open spec fn socket_addr_of(s: Seq<char>) -> Option<SocketAddress> {
    match rfind_char(s, ':', s.len() as int) {
        Some(k) => match (host_of(s.subrange(0, k)), port_of(s.subrange(k + 1, s.len() as int))) {
            (Some(ip), Some(port)) => Some(SocketAddress { ip, port }),
            _ => None,
        },
        None => None,
    }
}

fn is_star(s: &Vec<char>) -> (r: bool)
    ensures
        r == (s@ == seq!['*']),
{
    if s.len() == 1 && s[0] == '*' {
        assert(s@ =~= seq!['*']);
        true
    } else {
        false
    }
}

fn parse_host(h: &Vec<char>) -> (r: Option<IpAddress>)
    ensures
        r == host_of(h@),
{
    if is_star(h) {
        Some(IpAddress::V4(0, 0, 0, 0))
    } else if h.len() >= 2 && h[0] == '[' && h[h.len() - 1] == ']' {
        let inner = slice_chars(h, 1, h.len() - 1);
        parse_v6(&inner)
    } else {
        parse_v4(h)
    }
}

fn parse_port(p: &Vec<char>) -> (r: Option<u16>)
    ensures
        r == port_of(p@),
{
    if is_star(p) {
        Some(0)
    } else if p.len() > 0 && p[0] != '+' {
        match parse_number(p, 65535) {
            Some(n) => Some(n as u16),
            None => None,
        }
    } else {
        None
    }
}

/// Reads a socket address.
pub fn parse_socket_addr(s: &Vec<char>) -> (r: Option<SocketAddress>)
    ensures
        r == socket_addr_of(s@),
{
    match rfind_in(s, ':') {
        Some(k) => {
            let host = slice_chars(s, 0, k);
            let port = slice_chars(s, k + 1, s.len());
            match (parse_host(&host), parse_port(&port)) {
                (Some(ip), Some(port)) => Some(SocketAddress { ip, port }),
                _ => None,
            }
        },
        None => None,
    }
}

/// The address that one field of a socket table names: a socket address, or a port
/// alone, which is taken as a port of the loopback address 127.0.0.1. White space around
/// the text does not count.
pub open spec fn addr_of(s: Seq<char>) -> Option<SocketAddress> {
    let t = trimmed(s);
    match socket_addr_of(t) {
        Some(a) => Some(a),
        None => if contains(t, seq![':']) {
            None
        } else {
            match parse_unsigned(t, 65535) {
                Some(p) => Some(SocketAddress { ip: IpAddress::V4(127, 0, 0, 1), port: p as u16 }),
                None => None,
            }
        },
    }
}

/// Reads the address that one field of a socket table names.
pub fn parse_addr(addr_str: &Vec<char>) -> (r: Option<SocketAddress>)
    ensures
        r == addr_of(addr_str@),
{
    let t = trim(addr_str);
    match parse_socket_addr(&t) {
        Some(a) => Some(a),
        None => {
            if find_char(&t, ':').is_some() {
                None
            } else {
                match parse_number(&t, 65535) {
                    Some(p) => Some(
                        SocketAddress { ip: IpAddress::V4(127, 0, 0, 1), port: p as u16 },
                    ),
                    None => None,
                }
            }
        },
    }
}


/// The decimal writing of an octet reads back as the octet.
pub proof fn lemma_octet_round_trip(a: u8)
    ensures
        octet_of(decimal_text(a as nat)) == Some(a),
{
    lemma_decimal_text_digits(a as nat);
    lemma_decimal_text_shape(a as nat);
}

/// A dotted IPv4 address reads back as the address that was written.
#[verifier::rlimit(50)]
pub proof fn lemma_v4_round_trip(a: u8, b: u8, c: u8, d: u8)
    ensures
        v4_of(v4_text(a, b, c, d)) == Some(IpAddress::V4(a, b, c, d)),
{
    let ta = decimal_text(a as nat);
    let tb = decimal_text(b as nat);
    let tc = decimal_text(c as nat);
    let td = decimal_text(d as nat);
    let s = v4_text(a, b, c, d);
    lemma_decimal_text_digits(a as nat);
    lemma_decimal_text_digits(b as nat);
    lemma_decimal_text_digits(c as nat);
    lemma_decimal_text_digits(d as nat);
    let ia: int = 0;
    let ib: int = ta.len() as int + 1;
    let ic: int = ib + tb.len() + 1;
    let id: int = ic + tc.len() + 1;
    assert(s.len() == id + td.len());
    assert forall|j: int| ia <= j < ia + ta.len() implies s[j] != '.' by {
        assert(s[j] == ta[j - ia]);
        assert(is_digit(ta[j - ia]));
    }
    assert forall|j: int| ib <= j < ib + tb.len() implies s[j] != '.' by {
        assert(s[j] == tb[j - ib]);
        assert(is_digit(tb[j - ib]));
    }
    assert forall|j: int| ic <= j < ic + tc.len() implies s[j] != '.' by {
        assert(s[j] == tc[j - ic]);
        assert(is_digit(tc[j - ic]));
    }
    assert forall|j: int| id <= j < s.len() implies s[j] != '.' by {
        assert(s[j] == td[j - id]);
        assert(is_digit(td[j - id]));
    }
    assert(s[ia + ta.len()] == '.');
    assert(s[ib + tb.len()] == '.');
    assert(s[ic + tc.len()] == '.');
    lemma_split_part(s, '.', ia, ta.len() as int);
    lemma_split_part(s, '.', ib, tb.len() as int);
    lemma_split_part(s, '.', ic, tc.len() as int);
    lemma_split_last_part(s, '.', id);
    assert(s.subrange(ia, ia + ta.len()) =~= ta);
    assert(s.subrange(ib, ib + tb.len()) =~= tb);
    assert(s.subrange(ic, ic + tc.len()) =~= tc);
    assert(s.subrange(id, s.len() as int) =~= td);
    assert(split(s, '.') =~= seq![ta, tb, tc, td]);
    lemma_octet_round_trip(a);
    lemma_octet_round_trip(b);
    lemma_octet_round_trip(c);
    lemma_octet_round_trip(d);
}

/// The written form of a socket address with an IPv4 address reads back as the address
/// that was written.
pub proof fn lemma_v4_socket_addr_round_trip(a: u8, b: u8, c: u8, d: u8, port: u16)
    ensures
        socket_addr_of((SocketAddress { ip: IpAddress::V4(a, b, c, d), port }).text()) == Some(
            SocketAddress { ip: IpAddress::V4(a, b, c, d), port },
        ),
{
    let addr = SocketAddress { ip: IpAddress::V4(a, b, c, d), port };
    let h = v4_text(a, b, c, d);
    let p = decimal_text(port as nat);
    let s = addr.text();
    lemma_decimal_text_digits(a as nat);
    lemma_decimal_text_digits(b as nat);
    lemma_decimal_text_digits(c as nat);
    lemma_decimal_text_digits(d as nat);
    lemma_decimal_text_digits(port as nat);
    lemma_parse_decimal_text(port as nat, 65535);
    lemma_v4_round_trip(a, b, c, d);
    let k = h.len() as int;
    assert(s[k] == ':');
    assert forall|j: int| k < j < s.len() implies s[j] != ':' by {
        assert(s[j] == p[j - k - 1]);
        assert(is_digit(p[j - k - 1]));
    }
    lemma_rfind_last(s, ':', k, s.len() as int);
    assert(s.subrange(0, k) =~= h);
    assert(s.subrange(k + 1, s.len() as int) =~= p);
    assert(is_digit(h[0])) by {
        assert(h[0] == decimal_text(a as nat)[0]);
    }
    assert(is_digit(p[0]));
    assert(h != seq!['*']) by {
        if h == seq!['*'] {
            assert(h[0] == seq!['*'][0]);
        }
    }
    assert(p != seq!['*']) by {
        if p == seq!['*'] {
            assert(p[0] == seq!['*'][0]);
        }
    }
}


/// The numbers of the groups from `lo` up to `hi` of an IPv6 address.
pub open spec fn group_values(bits: u128, lo: int, hi: int) -> Seq<u16> {
    Seq::new(
        if hi > lo {
            (hi - lo) as nat
        } else {
            0
        },
        |i: int| v6_group(bits, lo + i),
    )
}

/// The groups from `lo` up to `hi` of an IPv6 address, each written in hexadecimal.
pub open spec fn group_words(bits: u128, lo: int, hi: int) -> Seq<Seq<char>> {
    Seq::new(
        if hi > lo {
            (hi - lo) as nat
        } else {
            0
        },
        |i: int| hex_text(v6_group(bits, lo + i) as nat, false),
    )
}

/// Whether two colons stand side by side at place `j` of the text.
pub open spec fn double_colon_at(t: Seq<char>, j: int) -> bool {
    0 <= j && j + 1 < t.len() && t[j] == ':' && t[j + 1] == ':'
}

/// The text holds hexadecimal digits and single colons between them.
pub open spec fn well_grouped(t: Seq<char>) -> bool {
    &&& t.len() > 0
    &&& t[0] != ':'
    &&& t.last() != ':'
    &&& forall|j: int| 0 <= j < t.len() ==> hex_digit_value(#[trigger] t[j]) is Some || t[j] == ':'
    &&& forall|j: int| !(#[trigger] double_colon_at(t, j))
}

/// Groups written with colons between them are well grouped, and the colons cut the
/// text into the groups as they were written.
#[verifier::rlimit(50)]
pub proof fn lemma_groups_text(bits: u128, lo: int, hi: int)
    requires
        0 <= lo < hi <= 8,
    ensures
        well_grouped(groups_text(bits, lo, hi)),
        split(groups_text(bits, lo, hi), ':') == group_words(bits, lo, hi),
    decreases hi - lo,
{
    let t = groups_text(bits, lo, hi);
    let w = hex_text(v6_group(bits, hi - 1) as nat, false);
    lemma_hex_text_digits(v6_group(bits, hi - 1) as nat, false);
    assert forall|j: int| 0 <= j < w.len() implies w[j] != ':' by {
        assert(hex_digit_value(w[j]) is Some);
    }
    if lo + 1 == hi {
        lemma_split_one(w, ':');
        assert(group_words(bits, lo, hi) =~= seq![w]);
        assert forall|j: int| !(#[trigger] double_colon_at(t, j)) by {
            if double_colon_at(t, j) {
                assert(hex_digit_value(t[j]) is Some);
            }
        }
    } else {
        let front = groups_text(bits, lo, hi - 1);
        lemma_groups_text(bits, lo, hi - 1);
        assert(t == front + seq![':'] + w);
        lemma_split_append(front, w, ':', 0, Seq::empty());
        assert(group_words(bits, lo, hi - 1) + seq![w] =~= group_words(bits, lo, hi));
        assert forall|j: int| 0 <= j < t.len() implies hex_digit_value(#[trigger] t[j]) is Some
            || t[j] == ':' by {
            if j < front.len() {
                assert(t[j] == front[j]);
            } else if j > front.len() {
                assert(t[j] == w[j - front.len() - 1]);
            }
        }
        assert forall|j: int| !(#[trigger] double_colon_at(t, j)) by {
            if double_colon_at(t, j) {
                if j + 1 < front.len() {
                    assert(t[j] == front[j] && t[j + 1] == front[j + 1]);
                    assert(double_colon_at(front, j));
                } else if j + 1 == front.len() {
                    assert(t[j] == front[j]);
                    assert(front[j] == front.last());
                } else if j == front.len() {
                    assert(t[j + 1] == w[0]);
                } else {
                    assert(t[j] == w[j - front.len() - 1]);
                }
            }
        }
        assert(t[0] == front[0]);
        assert(t.last() == w.last());
    }
}

/// Groups written in hexadecimal read back as their numbers.
pub proof fn lemma_plain_groups_round_trip(bits: u128, lo: int, hi: int)
    requires
        0 <= lo <= hi <= 8,
    ensures
        plain_groups(group_words(bits, lo, hi)) == Some(group_values(bits, lo, hi)),
    decreases hi - lo,
{
    let words = group_words(bits, lo, hi);
    if lo < hi {
        lemma_plain_groups_round_trip(bits, lo, hi - 1);
        assert(words.drop_last() =~= group_words(bits, lo, hi - 1));
        lemma_hex_group_round_trip(v6_group(bits, hi - 1), false);
        assert(group_values(bits, lo, hi - 1).push(v6_group(bits, hi - 1)) =~= group_values(
            bits,
            lo,
            hi,
        ));
    } else {
        assert(group_values(bits, lo, hi) =~= Seq::<u16>::empty());
    }
}

/// Groups written in hexadecimal read back as their numbers also where a dotted IPv4
/// address could stand at the end: a group holds no dot.
pub proof fn lemma_groups_round_trip(bits: u128, lo: int, hi: int)
    requires
        0 <= lo < hi <= 8,
    ensures
        groups_of(group_words(bits, lo, hi)) == Some(group_values(bits, lo, hi)),
{
    let words = group_words(bits, lo, hi);
    let w = words.last();
    lemma_hex_text_digits(v6_group(bits, hi - 1) as nat, false);
    assert(w == hex_text(v6_group(bits, hi - 1) as nat, false));
    assert forall|j: int| 0 <= j < w.len() implies w[j] != '.' by {
        assert(hex_digit_value(w[j]) is Some);
    }
    lemma_split_one(w, '.');
    lemma_plain_groups_round_trip(bits, lo, hi);
}

/// The groups of a run of zero groups are zero, and the run ends within the address.
pub proof fn lemma_zero_run(bits: u128, i: int)
    requires
        0 <= i <= 8,
    ensures
        0 <= zero_run(bits, i) <= 8 - i,
        forall|k: int| i <= k < i + zero_run(bits, i) ==> v6_group(bits, k) == 0,
    decreases 8 - i,
{
    if i < 8 && v6_group(bits, i) == 0 {
        lemma_zero_run(bits, i + 1);
    }
}

/// The longest run of zero groups is a run of zero groups.
pub proof fn lemma_longest_zero_run(bits: u128, i: int)
    requires
        0 <= i <= 8,
    ensures
        longest_zero_run(bits, i).1 >= 0,
        longest_zero_run(bits, i).1 > 0 ==> i <= longest_zero_run(bits, i).0 < 8
            && longest_zero_run(bits, i).1 == zero_run(bits, longest_zero_run(bits, i).0),
    decreases 8 - i,
{
    if i < 8 {
        lemma_zero_run(bits, i);
        lemma_longest_zero_run(bits, i + 1);
    }
}


proof fn lemma_group_bits(bits: u128)
    by (bit_vector)
    ensures
        (bits >> 112) & 0xffff == bits >> 112,
        bits >> 96 == (bits >> 112) * 65536 + ((bits >> 96) & 0xffff),
        bits >> 80 == (bits >> 96) * 65536 + ((bits >> 80) & 0xffff),
        bits >> 64 == (bits >> 80) * 65536 + ((bits >> 64) & 0xffff),
        bits >> 48 == (bits >> 64) * 65536 + ((bits >> 48) & 0xffff),
        bits >> 32 == (bits >> 48) * 65536 + ((bits >> 32) & 0xffff),
        bits >> 16 == (bits >> 32) * 65536 + ((bits >> 16) & 0xffff),
        bits == (bits >> 16) * 65536 + (bits & 0xffff),
        (bits >> 112) & 0xffff < 65536,
        (bits >> 96) & 0xffff < 65536,
        (bits >> 80) & 0xffff < 65536,
        (bits >> 64) & 0xffff < 65536,
        (bits >> 48) & 0xffff < 65536,
        (bits >> 32) & 0xffff < 65536,
        (bits >> 16) & 0xffff < 65536,
        bits & 0xffff < 65536,
        bits >> 0 == bits,
{
}

/// The eight groups of an IPv6 address write the address.
#[verifier::rlimit(50)]
pub proof fn lemma_groups_value(bits: u128)
    ensures
        groups_value(group_values(bits, 0, 8)) == bits,
{
    lemma_group_bits(bits);
    let g = |k: int| group_values(bits, 0, k);
    assert(g(0) =~= Seq::<u16>::empty());
    assert(g(1).drop_last() =~= g(0) && g(1).last() == v6_group(bits, 0));
    assert(g(2).drop_last() =~= g(1) && g(2).last() == v6_group(bits, 1));
    assert(g(3).drop_last() =~= g(2) && g(3).last() == v6_group(bits, 2));
    assert(g(4).drop_last() =~= g(3) && g(4).last() == v6_group(bits, 3));
    assert(g(5).drop_last() =~= g(4) && g(5).last() == v6_group(bits, 4));
    assert(g(6).drop_last() =~= g(5) && g(6).last() == v6_group(bits, 5));
    assert(g(7).drop_last() =~= g(6) && g(7).last() == v6_group(bits, 6));
    assert(g(8).drop_last() =~= g(7) && g(8).last() == v6_group(bits, 7));
    assert(v6_group(bits, 0) == (bits >> 112) & 0xffff);
    assert(v6_group(bits, 1) == (bits >> 96) & 0xffff);
    assert(v6_group(bits, 2) == (bits >> 80) & 0xffff);
    assert(v6_group(bits, 3) == (bits >> 64) & 0xffff);
    assert(v6_group(bits, 4) == (bits >> 48) & 0xffff);
    assert(v6_group(bits, 5) == (bits >> 32) & 0xffff);
    assert(v6_group(bits, 6) == (bits >> 16) & 0xffff);
    assert(v6_group(bits, 7) == (bits >> 0) & 0xffff);
    assert(groups_value(g(0)) == 0);
    assert(groups_value(g(1)) == bits >> 112);
    assert(groups_value(g(2)) == bits >> 96);
    assert(groups_value(g(3)) == bits >> 80);
    assert(groups_value(g(4)) == bits >> 64);
    assert(groups_value(g(5)) == bits >> 48);
    assert(groups_value(g(6)) == bits >> 32);
    assert(groups_value(g(7)) == bits >> 16);
}

proof fn lemma_mapped_bits(bits: u128)
    by (bit_vector)
    requires
        bits >> 32 == 0xffff,
    ensures
        (bits >> 112) & 0xffff == 0,
        (bits >> 96) & 0xffff == 0,
        (bits >> 80) & 0xffff == 0,
        (bits >> 64) & 0xffff == 0,
        (bits >> 48) & 0xffff == 0,
        (bits >> 32) & 0xffff == 0xffff,
        (bits >> 16) & 0xffff == ((bits >> 24) & 0xff) * 256 + ((bits >> 16) & 0xff),
        (bits >> 0) & 0xffff == ((bits >> 8) & 0xff) * 256 + (bits & 0xff),
        (bits >> 24) & 0xff < 256,
        (bits >> 16) & 0xff < 256,
        (bits >> 8) & 0xff < 256,
        bits & 0xff < 256,
{
}

/// A dotted IPv4 address holds digits and dots only.
pub proof fn lemma_v4_text_chars(a: u8, b: u8, c: u8, d: u8)
    ensures
        v4_text(a, b, c, d).len() > 0,
        forall|j: int|
            0 <= j < v4_text(a, b, c, d).len() ==> is_digit(#[trigger] v4_text(a, b, c, d)[j])
                || v4_text(a, b, c, d)[j] == '.',
{
    let ta = decimal_text(a as nat);
    let tb = decimal_text(b as nat);
    let tc = decimal_text(c as nat);
    let td = decimal_text(d as nat);
    let s = v4_text(a, b, c, d);
    lemma_decimal_text_digits(a as nat);
    lemma_decimal_text_digits(b as nat);
    lemma_decimal_text_digits(c as nat);
    lemma_decimal_text_digits(d as nat);
    let ib: int = ta.len() as int + 1;
    let ic: int = ib + tb.len() + 1;
    let id: int = ic + tc.len() + 1;
    assert forall|j: int| 0 <= j < s.len() implies is_digit(#[trigger] s[j]) || s[j] == '.' by {
        if j < ta.len() {
            assert(s[j] == ta[j]);
        } else if j < ib {
        } else if j < ib + tb.len() {
            assert(s[j] == tb[j - ib]);
        } else if j < ic {
        } else if j < ic + tc.len() {
            assert(s[j] == tc[j - ic]);
        } else if j < id {
        } else {
            assert(s[j] == td[j - id]);
        }
    }
}

/// The four letters `ffff` write the group 65535.
proof fn lemma_ffff()
    ensures
        plain_groups(seq![seq!['f', 'f', 'f', 'f']]) == Some(seq![65535u16]),
        forall|j: int| 0 <= j < 4 ==> seq!['f', 'f', 'f', 'f'][j] != ':',
{
    let f1 = seq!['f'];
    let f2 = seq!['f', 'f'];
    let f3 = seq!['f', 'f', 'f'];
    let f4 = seq!['f', 'f', 'f', 'f'];
    let none = Seq::<char>::empty();
    assert(hex_digit_value('f') == Some(15nat));
    assert(hex_value(none) == 0);
    assert(f1.drop_last() =~= none && f1.last() == 'f');
    assert(hex_value(f1) == 15);
    assert(f2.drop_last() =~= f1 && f2.last() == 'f');
    assert(hex_value(f2) == 255);
    assert(f3.drop_last() =~= f2 && f3.last() == 'f');
    assert(hex_value(f3) == 4095);
    assert(f4.drop_last() =~= f3 && f4.last() == 'f');
    assert(hex_value(f4) == 65535);
    assert(all_hex_digits(f4));
    assert(crate::text::hex_group(f4) == Some(65535u16));
    let words = seq![f4];
    assert(words.drop_last() =~= Seq::<Seq<char>>::empty());
    assert(words.last() == f4);
    assert(plain_groups(words.drop_last()) == Some(Seq::<u16>::empty()));
    assert(Seq::<u16>::empty().push(65535u16) =~= seq![65535u16]);
}

proof fn lemma_mapped_groups(bits: u128, a: u8, b: u8, c: u8, d: u8)
    requires
        is_v4_mapped(bits),
        a == ((bits >> 24) & 0xff) as u8,
        b == ((bits >> 16) & 0xff) as u8,
        c == ((bits >> 8) & 0xff) as u8,
        d == (bits & 0xff) as u8,
    ensures
        Seq::<u16>::empty() + zero_groups(5) + (seq![65535u16] + v4_groups(a, b, c, d))
            == group_values(bits, 0, 8),
{
    lemma_mapped_bits(bits);
    let all = Seq::<u16>::empty() + zero_groups(5) + (seq![65535u16] + v4_groups(a, b, c, d));
    assert(v6_group(bits, 0) == 0);
    assert(v6_group(bits, 1) == 0);
    assert(v6_group(bits, 2) == 0);
    assert(v6_group(bits, 3) == 0);
    assert(v6_group(bits, 4) == 0);
    assert(v6_group(bits, 5) == 65535);
    assert(v6_group(bits, 6) == (a * 256 + b) as u16);
    assert(v6_group(bits, 7) == (c * 256 + d) as u16);
    assert(all.len() == 8);
    assert(all =~= group_values(bits, 0, 8));
}

#[verifier::rlimit(50)]
proof fn lemma_v6_mapped_round_trip(bits: u128)
    requires
        is_v4_mapped(bits),
    ensures
        v6_groups_of(v6_text(bits)) == Some(group_values(bits, 0, 8)),
{
    let cc = seq![':', ':'];
    let text = v6_text(bits);
    let a = ((bits >> 24) & 0xff) as u8;
    let b = ((bits >> 16) & 0xff) as u8;
    let c = ((bits >> 8) & 0xff) as u8;
    let d = (bits & 0xff) as u8;
    let v = v4_text(a, b, c, d);
    let f4 = seq!['f', 'f', 'f', 'f'];
    lemma_v4_text_chars(a, b, c, d);
    lemma_v4_round_trip(a, b, c, d);
    lemma_ffff();
    lemma_mapped_groups(bits, a, b, c, d);
    assert(text.subrange(0, 2) =~= cc);
    assert(find(text, cc) == Some(0int));
    assert(text.subrange(0, 0).len() == 0);
    let right = text.subrange(2, text.len() as int);
    assert(right =~= f4 + seq![':'] + v);
    assert forall|j: int| 0 <= j < v.len() implies v[j] != ':' by {
        assert(is_digit(v[j]) || v[j] == '.');
    }
    lemma_split_append(f4, v, ':', 0, Seq::empty());
    lemma_split_one(f4, ':');
    let parts = split(right, ':');
    assert(parts =~= seq![f4, v]);
    assert(parts.last() == v);
    assert(parts.drop_last() =~= seq![f4]);
    assert(groups_of(parts) == Some(seq![65535u16] + v4_groups(a, b, c, d)));
}

#[verifier::rlimit(50)]
proof fn lemma_v6_short_round_trip(bits: u128, s: int, n: int)
    requires
        0 <= s,
        2 <= n,
        s + n <= 8,
        forall|k: int| s <= k < s + n ==> v6_group(bits, k) == 0,
    ensures
        v6_groups_of(groups_text(bits, 0, s) + seq![':', ':'] + groups_text(bits, s + n, 8))
            == Some(group_values(bits, 0, 8)),
{
    let cc = seq![':', ':'];
    let left = groups_text(bits, 0, s);
    let right = groups_text(bits, s + n, 8);
    let text = left + cc + right;
    if s > 0 {
        lemma_groups_text(bits, 0, s);
        lemma_plain_groups_round_trip(bits, 0, s);
    } else {
        assert(group_values(bits, 0, 0) =~= Seq::<u16>::empty());
    }
    if s + n < 8 {
        lemma_groups_text(bits, s + n, 8);
        lemma_groups_round_trip(bits, s + n, 8);
    } else {
        assert(group_values(bits, 8, 8) =~= Seq::<u16>::empty());
    }
    let k = left.len() as int;
    assert(text.subrange(k, k + 2) =~= cc);
    assert forall|j: int| 0 <= j < k implies !occurs_at(text, cc, j) by {
        if occurs_at(text, cc, j) {
            let part = text.subrange(j, j + 2);
            assert(part[0] == cc[0] && part[1] == cc[1]);
            assert(text[j] == left[j]);
            if j + 1 < k {
                assert(text[j + 1] == left[j + 1]);
                assert(double_colon_at(left, j));
            } else {
                assert(left[j] == left.last());
            }
        }
    }
    lemma_find_first(text, cc, k, 0);
    assert(text.subrange(0, k) =~= left);
    assert(text.subrange(k + 2, text.len() as int) =~= right);
    let head = group_values(bits, 0, s);
    let tail = group_values(bits, s + n, 8);
    assert(head + zero_groups(8 - head.len() - tail.len()) + tail =~= group_values(bits, 0, 8));
}

#[verifier::rlimit(50)]
proof fn lemma_v6_plain_round_trip(bits: u128)
    ensures
        v6_groups_of(groups_text(bits, 0, 8)) == Some(group_values(bits, 0, 8)),
{
    let cc = seq![':', ':'];
    let text = groups_text(bits, 0, 8);
    lemma_groups_text(bits, 0, 8);
    lemma_groups_round_trip(bits, 0, 8);
    assert forall|j: int| 0 <= j implies !occurs_at(text, cc, j) by {
        if occurs_at(text, cc, j) {
            let part = text.subrange(j, j + 2);
            assert(part[0] == cc[0] && part[1] == cc[1]);
            assert(double_colon_at(text, j));
        }
    }
    lemma_find_none(text, cc, 0);
}

/// The written form of an IPv6 address reads back as the address.
pub proof fn lemma_v6_round_trip(bits: u128)
    ensures
        v6_of(v6_text(bits)) == Some(IpAddress::V6(bits)),
{
    lemma_groups_value(bits);
    if is_v4_mapped(bits) {
        lemma_v6_mapped_round_trip(bits);
    } else {
        let run = longest_zero_run(bits, 0);
        lemma_longest_zero_run(bits, 0);
        if run.1 > 1 {
            lemma_zero_run(bits, run.0);
            lemma_v6_short_round_trip(bits, run.0, run.1);
        } else {
            lemma_v6_plain_round_trip(bits);
        }
    }
}


/// The written form of an IPv6 address holds something and no white space.
#[verifier::rlimit(50)]
pub proof fn lemma_v6_text_chars(bits: u128)
    ensures
        v6_text(bits).len() > 0,
        no_spaces(v6_text(bits)),
{
    let text = v6_text(bits);
    if is_v4_mapped(bits) {
        let a = ((bits >> 24) & 0xff) as u8;
        let b = ((bits >> 16) & 0xff) as u8;
        let c = ((bits >> 8) & 0xff) as u8;
        let d = (bits & 0xff) as u8;
        let v = v4_text(a, b, c, d);
        let pre = seq![':', ':', 'f', 'f', 'f', 'f', ':'];
        lemma_v4_text_chars(a, b, c, d);
        assert forall|j: int| 0 <= j < text.len() implies !is_space(#[trigger] text[j]) by {
            if j < 7 {
                assert(text[j] == pre[j]);
            } else {
                assert(text[j] == v[j - 7]);
                assert(is_digit(v[j - 7]) || v[j - 7] == '.');
            }
        }
    } else {
        let run = longest_zero_run(bits, 0);
        lemma_longest_zero_run(bits, 0);
        if run.1 > 1 {
            let s = run.0;
            let n = run.1;
            lemma_zero_run(bits, s);
            let left = groups_text(bits, 0, s);
            let right = groups_text(bits, s + n, 8);
            if s > 0 {
                lemma_groups_text(bits, 0, s);
            }
            if s + n < 8 {
                lemma_groups_text(bits, s + n, 8);
            }
            assert forall|j: int| 0 <= j < text.len() implies !is_space(#[trigger] text[j]) by {
                if j < left.len() {
                    assert(text[j] == left[j]);
                    assert(hex_digit_value(left[j]) is Some || left[j] == ':');
                } else if j >= left.len() + 2 {
                    let k = j - left.len() - 2;
                    assert(text[j] == right[k]);
                    assert(hex_digit_value(right[k]) is Some || right[k] == ':');
                } else {
                    assert(text[j] == ':');
                }
            }
        } else {
            lemma_groups_text(bits, 0, 8);
            assert forall|j: int| 0 <= j < text.len() implies !is_space(#[trigger] text[j]) by {
                assert(hex_digit_value(text[j]) is Some || text[j] == ':');
            }
        }
    }
}

/// The written form of a socket address with an IPv6 address reads back as the address
/// that was written.
pub proof fn lemma_v6_socket_addr_round_trip(bits: u128, port: u16)
    ensures
        socket_addr_of((SocketAddress { ip: IpAddress::V6(bits), port }).text()) == Some(
            SocketAddress { ip: IpAddress::V6(bits), port },
        ),
{
    let addr = SocketAddress { ip: IpAddress::V6(bits), port };
    let v = v6_text(bits);
    let p = decimal_text(port as nat);
    let s = addr.text();
    lemma_decimal_text_digits(port as nat);
    lemma_parse_decimal_text(port as nat, 65535);
    lemma_v6_round_trip(bits);
    let k = v.len() as int + 2;
    assert(s.len() == k + 1 + p.len());
    assert(s[k] == ':');
    assert forall|j: int| k < j < s.len() implies s[j] != ':' by {
        assert(s[j] == p[j - k - 1]);
        assert(is_digit(p[j - k - 1]));
    }
    lemma_rfind_last(s, ':', k, s.len() as int);
    let h = s.subrange(0, k);
    assert(h =~= seq!['['] + v + seq![']']);
    assert(h[0] == '[');
    assert(h.last() == ']');
    assert(h != seq!['*']) by {
        if h == seq!['*'] {
            assert(h[0] == seq!['*'][0]);
        }
    }
    assert(h.subrange(1, h.len() - 1) =~= v);
    assert(s.subrange(k + 1, s.len() as int) =~= p);
    assert(is_digit(p[0]));
    assert(p != seq!['*']) by {
        if p == seq!['*'] {
            assert(p[0] == seq!['*'][0]);
        }
    }
}

/// The written form of a socket address reads back as the address that was written.
pub proof fn lemma_socket_addr_round_trip(addr: SocketAddress)
    ensures
        socket_addr_of(addr.text()) == Some(addr),
{
    match addr.ip {
        IpAddress::V4(a, b, c, d) => {
            lemma_v4_socket_addr_round_trip(a, b, c, d, addr.port);
        },
        IpAddress::V6(bits) => {
            lemma_v6_socket_addr_round_trip(bits, addr.port);
        },
    }
}

/// The written form of a socket address holds something and no white space, and is read
/// as the address where it stands as a field of a socket table.
#[verifier::rlimit(50)]
pub proof fn lemma_address_word(addr: SocketAddress)
    ensures
        addr.text().len() > 0,
        no_spaces(addr.text()),
        addr_of(addr.text()) == Some(addr),
{
    let s = addr.text();
    let p = decimal_text(addr.port as nat);
    lemma_decimal_text_digits(addr.port as nat);
    lemma_socket_addr_round_trip(addr);
    match addr.ip {
        IpAddress::V4(a, b, c, d) => {
            let v = v4_text(a, b, c, d);
            lemma_v4_text_chars(a, b, c, d);
            assert forall|j: int| 0 <= j < s.len() implies !is_space(#[trigger] s[j]) by {
                if j < v.len() {
                    assert(s[j] == v[j]);
                    assert(is_digit(v[j]) || v[j] == '.');
                } else if j > v.len() {
                    assert(s[j] == p[j - v.len() - 1]);
                    assert(is_digit(p[j - v.len() - 1]));
                }
            }
            assert(s.last() == p.last());
            assert(is_digit(p[p.len() - 1]));
        },
        IpAddress::V6(bits) => {
            let v = v6_text(bits);
            lemma_v6_text_chars(bits);
            assert forall|j: int| 0 <= j < s.len() implies !is_space(#[trigger] s[j]) by {
                if j == 0 {
                } else if j < 1 + v.len() {
                    assert(s[j] == v[j - 1]);
                } else if j >= v.len() + 3 {
                    assert(s[j] == p[j - v.len() - 3]);
                    assert(is_digit(p[j - v.len() - 3]));
                }
            }
            assert(s.last() == p.last());
            assert(is_digit(p[p.len() - 1]));
        },
    }
    lemma_trimmed_unchanged(s);
}

} // verus!
