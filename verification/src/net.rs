//! IP addresses, CIDR prefixes and BGP communities.
use vstd::prelude::*;

use crate::text::{
    all_digits, chars_of, is_digit, contains_char, digits_value, parse_uint, parse_uint_chars, slice_of,
    split, split_chars, split_once, split_once_chars, unsigned_digits, views, Sep,
};

verus! {

pub open spec fn is_hex(c: char) -> bool {
    ('0' <= c && c <= '9') || ('a' <= c && c <= 'f') || ('A' <= c && c <= 'F')
}

/// One to four hexadecimal digits.
pub open spec fn hex_group(s: Seq<char>) -> bool {
    1 <= s.len() <= 4 && forall|i: int| 0 <= i < s.len() ==> is_hex(#[trigger] s[i])
}

/// A decimal octet: one to three digits, at most 255, no leading zero.
pub open spec fn dec_octet(s: Seq<char>) -> bool {
    &&& 1 <= s.len() <= 3
    &&& all_digits(s)
    &&& digits_value(s) <= 255
    &&& (s.len() == 1 || s[0] != '0')
}

/// Dotted-quad IPv4 text, as `Ipv4Addr`'s parser accepts it.
pub open spec fn ipv4_text(s: Seq<char>) -> bool {
    let p = split(s, Sep::Char('.'));
    p.len() == 4 && forall|i: int| 0 <= i < 4 ==> dec_octet(#[trigger] p[i])
}

pub open spec fn all_groups(p: Seq<Seq<char>>) -> bool {
    forall|i: int| 0 <= i < p.len() ==> hex_group(#[trigger] p[i])
}

/// Index of the first `::` in `s`, or `-1`.
pub open spec fn double_colon(s: Seq<char>) -> int
    decreases s.len(),
{
    if s.len() < 2 {
        -1
    } else if s[0] == ':' && s[1] == ':' {
        0
    } else {
        let r = double_colon(s.drop_first());
        if r < 0 {
            -1
        } else {
            r + 1
        }
    }
}

/// Number of 16-bit groups a part of an IPv6 address holds (an embedded
/// IPv4 address counts two and may only come last), or `-1` if the part
/// is malformed. An empty part holds none.
pub open spec fn group_units(t: Seq<char>, allow_v4: bool) -> int {
    if t.len() == 0 {
        0
    } else {
        let q = split(t, Sep::Char(':'));
        if all_groups(q) {
            q.len() as int
        } else if allow_v4 && all_groups(q.drop_last()) && ipv4_text(q.last()) {
            q.len() + 1int
        } else {
            -1
        }
    }
}

/// IPv6 text as `Ipv6Addr`'s parser accepts it: eight groups, or six
/// groups and an IPv4 address; or, around one `::`, a head of groups and a
/// tail of groups (the tail may end in an IPv4 address) filling at most
/// seven of the eight groups.
pub open spec fn ipv6_text(s: Seq<char>) -> bool {
    let d = double_colon(s);
    if d < 0 {
        let p = split(s, Sep::Char(':'));
        (p.len() == 8 && all_groups(p)) || (p.len() == 7 && all_groups(p.take(6)) && ipv4_text(
            p[6],
        ))
    } else {
        let h = group_units(s.take(d), false);
        let t = group_units(s.skip(d + 2), true);
        h >= 0 && t >= 0 && h + t <= 7
    }
}

/// Address family of `s` as `str::parse::<std::net::IpAddr>` reads it: 4,
/// 6, or 0 when `s` is no address.
pub open spec fn ip_family(s: Seq<char>) -> int {
    if ipv4_text(s) {
        4
    } else if ipv6_text(s) {
        6
    } else {
        0
    }
}

fn is_hex_char(c: char) -> (r: bool)
    ensures
        r == is_hex(c),
{
    ('0' <= c && c <= '9') || ('a' <= c && c <= 'f') || ('A' <= c && c <= 'F')
}

fn is_hex_group(s: &[char]) -> (r: bool)
    ensures
        r == hex_group(s@),
{
    if s.len() < 1 || s.len() > 4 {
        return false;
    }
    let mut i: usize = 0;
    while i < s.len()
        invariant
            i <= s.len(),
            forall|j: int| 0 <= j < i ==> is_hex(#[trigger] s@[j]),
        decreases s.len() - i,
    {
        if !is_hex_char(s[i]) {
            return false;
        }
        i += 1;
    }
    true
}

pub(crate) fn is_dec_octet(s: &[char]) -> (r: bool)
    ensures
        r == dec_octet(s@),
{
    if s.len() < 1 || s.len() > 3 {
        return false;
    }
    if s.len() > 1 && s[0] == '0' {
        return false;
    }
    if !('0' <= s[0] && s[0] <= '9') {
        assert(!is_digit(s@[0]));
        return false;
    }
    assert(unsigned_digits(s@) == s@);
    match parse_uint_chars(s, 255) {
        Some(_) => true,
        None => false,
    }
}

pub(crate) fn is_ipv4_text(s: &[char]) -> (r: bool)
    ensures
        r == ipv4_text(s@),
{
    let p = split_chars(s, Sep::Char('.'));
    let ghost pv = views(p@);
    assert(pv.len() == p@.len());
    if p.len() != 4 {
        return false;
    }
    let mut i: usize = 0;
    while i < 4
        invariant
            i <= 4,
            p@.len() == 4,
            pv == views(p@),
            pv == split(s@, Sep::Char('.')),
            forall|j: int| 0 <= j < i ==> dec_octet(#[trigger] pv[j]),
        decreases 4 - i,
    {
        if !is_dec_octet(p[i].as_slice()) {
            assert(!dec_octet(pv[i as int]));
            return false;
        }
        i += 1;
    }
    true
}

pub(crate) fn groups_ok(p: &Vec<Vec<char>>, n: usize) -> (r: bool)
    requires
        n <= p@.len(),
    ensures
        r == all_groups(views(p@).take(n as int)),
{
    let ghost pv = views(p@);
    let mut i: usize = 0;
    while i < n
        invariant
            i <= n <= p@.len(),
            pv == views(p@),
            forall|j: int| 0 <= j < i ==> hex_group(#[trigger] pv[j]),
        decreases n - i,
    {
        if !is_hex_group(p[i].as_slice()) {
            assert(!hex_group(pv.take(n as int)[i as int]));
            return false;
        }
        i += 1;
    }
    assert forall|j: int| 0 <= j < n implies hex_group(#[trigger] pv.take(n as int)[j]) by {
        assert(pv.take(n as int)[j] == pv[j]);
    }
    true
}

/// Pieces of a part and whether the last one is an IPv4 address.
fn group_units_of(t: &[char], allow_v4: bool) -> (r: Option<(usize, bool)>)
    ensures
        match r {
            Some((n, v4)) => group_units(t@, allow_v4) == n + (if v4 {
                1int
            } else {
                0int
            }) && (v4 ==> allow_v4),
            None => group_units(t@, allow_v4) < 0,
        },
{
    if t.len() == 0 {
        return Some((0, false));
    }
    let q = split_chars(t, Sep::Char(':'));
    let ghost qv = views(q@);
    assert(qv.len() == q@.len());
    assert(qv.take(q@.len() as int) == qv);
    if groups_ok(&q, q.len()) {
        return Some((q.len(), false));
    }
    assert(q@.len() >= 1);
    assert(qv.take(q@.len() - 1) == qv.drop_last());
    if allow_v4 && groups_ok(&q, q.len() - 1) && is_ipv4_text(q[q.len() - 1].as_slice()) {
        assert(q@[q@.len() - 1]@ == qv.last());
        return Some((q.len(), true));
    }
    None
}

proof fn lemma_double_colon(s: Seq<char>)
    ensures
        double_colon(s) >= -1,
        double_colon(s) >= 0 ==> double_colon(s) + 2 <= s.len() && s[double_colon(s)] == ':' && s[double_colon(s) + 1] == ':',
    decreases s.len(),
{
    if s.len() >= 2 && !(s[0] == ':' && s[1] == ':') {
        lemma_double_colon(s.drop_first());
    }
}

pub(crate) fn find_double_colon(s: &[char]) -> (r: Option<usize>)
    ensures
        match r {
            Some(i) => i == double_colon(s@) && i + 2 <= s@.len(),
            None => double_colon(s@) < 0,
        },
{
    proof {
        lemma_double_colon(s@);
    }
    if s.len() < 2 {
        return None;
    }
    let mut i: usize = 0;
    assert(s@.skip(0) == s@);
    while i <= s.len() - 2
        invariant
            s.len() >= 2,
            i <= s.len(),
            double_colon(s@) == (if double_colon(s@.skip(i as int)) < 0 {
                -1
            } else {
                double_colon(s@.skip(i as int)) + i
            }),
        decreases s.len() - i,
    {
        assert(s@.skip(i as int)[0] == s@[i as int]);
        assert(s@.skip(i as int)[1] == s@[i + 1]);
        if s[i] == ':' && s[i + 1] == ':' {
            return Some(i);
        }
        assert(s@.skip(i as int).drop_first() == s@.skip(i + 1));
        proof {
            lemma_double_colon(s@.skip(i + 1));
        }
        i += 1;
    }
    None
}

fn is_ipv6_text(s: &[char]) -> (r: bool)
    ensures
        r == ipv6_text(s@),
{
    match find_double_colon(s) {
        None => {
            let p = split_chars(s, Sep::Char(':'));
            let ghost pv = views(p@);
            assert(pv.len() == p@.len());
            if p.len() == 8 {
                assert(pv.take(8) == pv);
                return groups_ok(&p, 8);
            }
            if p.len() == 7 {
                return groups_ok(&p, 6) && is_ipv4_text(p[6].as_slice());
            }
            false
        },
        Some(d) => {
            let head = slice_of(s, 0, d);
            let tail = slice_of(s, d + 2, s.len());
            assert(head@ == s@.take(d as int));
            assert(tail@ == s@.skip(d + 2));
            match (group_units_of(head.as_slice(), false), group_units_of(tail.as_slice(), true)) {
                (Some((h, _)), Some((tn, tv4))) => {
                    if h > 7 {
                        false
                    } else if tv4 {
                        tn < 7 - h
                    } else {
                        tn <= 7 - h
                    }
                },
                _ => false,
            }
        },
    }
}

/// Family of the IP address text `s`: 4, 6, or 0 when it is none.
pub fn ip_family_of(s: &[char]) -> (r: u8)
    ensures
        r as int == ip_family(s@),
{
    if is_ipv4_text(s) {
        4
    } else if is_ipv6_text(s) {
        6
    } else {
        0
    }
}

pub open spec fn u32_max() -> nat {
    0xffff_ffff
}

/// An octet of a dotted IPv4 address: a `u32` no larger than 255.
pub open spec fn octet_ok(s: Seq<char>) -> bool {
    match parse_uint(s, u32_max()) {
        Some(v) => v <= 255,
        None => false,
    }
}

/// Loose CIDR syntax check: `ip/len` with a `u32` length, no `*` or space
/// in the address part; with a `:` the length is at most 128, otherwise the
/// address is four dot-separated octets and the length at most 32.
pub open spec fn valid_cidr(p: Seq<char>) -> bool {
    match split_once(p, '/') {
        None => false,
        Some((ip, len)) => !ip.contains('*') && !ip.contains(' ') && match parse_uint(
            len,
            u32_max(),
        ) {
            None => false,
            Some(n) => if ip.contains(':') {
                n <= 128
            } else {
                let o = split(ip, Sep::Char('.'));
                o.len() == 4 && (forall|i: int| 0 <= i < 4 ==> octet_ok(#[trigger] o[i])) && n
                    <= 32
            },
        },
    }
}

/// `valid_cidr`.
pub fn is_valid_cidr_chars(p: &[char]) -> (r: bool)
    ensures
        r == valid_cidr(p@),
{
    let (ip, len) = match split_once_chars(p, '/') {
        Some(x) => x,
        None => {
            return false;
        },
    };
    if contains_char(ip.as_slice(), '*') || contains_char(ip.as_slice(), ' ') {
        return false;
    }
    let n = match parse_uint_chars(len.as_slice(), 0xffff_ffff) {
        Some(n) => n,
        None => {
            return false;
        },
    };
    if contains_char(ip.as_slice(), ':') {
        n <= 128
    } else {
        let octets = split_chars(ip.as_slice(), Sep::Char('.'));
        if octets.len() != 4 {
            return false;
        }
        let ghost ov = views(octets@);
        let mut i: usize = 0;
        while i < 4
            invariant
                i <= 4,
                octets@.len() == 4,
                ov == views(octets@),
                ov == split(ip@, Sep::Char('.')),
                split_once(p@, '/') == Some((ip@, len@)),
                !ip@.contains('*') && !ip@.contains(' ') && !ip@.contains(':'),
                parse_uint(len@, u32_max()) == Some(n as nat),
                forall|j: int| 0 <= j < i ==> octet_ok(#[trigger] ov[j]),
            decreases 4 - i,
        {
            match parse_uint_chars(octets[i].as_slice(), 0xffff_ffff) {
                Some(v) => {
                    if v > 255 {
                        assert(!octet_ok(ov[i as int]));
                        return false;
                    }
                },
                None => {
                    assert(!octet_ok(ov[i as int]));
                    return false;
                },
            }
            i += 1;
        }
        n <= 32
    }
}

/// Why a CIDR prefix or a community was refused.
#[derive(Clone, Copy, PartialEq, Eq, Structural, Debug)]
pub enum NetError {
    /// The prefix has no `/`.
    NotCidr,
    /// The address part is no IP address.
    BadAddress,
    /// The length is no `u32`.
    BadLength,
    /// The length exceeds 32 (IPv4) or 128 (IPv6).
    LengthTooLong,
    /// The community has no `:`.
    NotCommunity,
    /// A half of the community is no `u32`.
    BadCommunityNumber,
    /// A half of the community exceeds 65535.
    CommunityOutOfRange,
}

/// The text that explains an error.
pub open spec fn net_error_text(e: NetError) -> Seq<char> {
    match e {
        NetError::NotCidr => "prefix must be CIDR"@,
        NetError::BadAddress => "invalid IP address"@,
        NetError::BadLength => "invalid prefix length"@,
        NetError::LengthTooLong => "prefix length exceeds max"@,
        NetError::NotCommunity => "community must be <asn>:<value>"@,
        NetError::BadCommunityNumber => "invalid community number"@,
        NetError::CommunityOutOfRange => "community fields must be in 0..=65535"@,
    }
}

impl NetError {
    /// See `net_error_text`.
    pub fn message(&self) -> (r: &'static str)
        ensures
            r@ == net_error_text(*self),
    {
        match self {
            NetError::NotCidr => "prefix must be CIDR",
            NetError::BadAddress => "invalid IP address",
            NetError::BadLength => "invalid prefix length",
            NetError::LengthTooLong => "prefix length exceeds max",
            NetError::NotCommunity => "community must be <asn>:<value>",
            NetError::BadCommunityNumber => "invalid community number",
            NetError::CommunityOutOfRange => "community fields must be in 0..=65535",
        }
    }
}

/// A prefix as `CommandExecutor::parse_cidr` reads it.
pub struct Cidr {
    pub is_ipv6: bool,
    pub ip: String,
    pub prefix_len: u32,
}

/// What `parse_cidr` gives for `p`: address family, address text and length.
pub open spec fn cidr_spec(p: Seq<char>) -> Result<(bool, Seq<char>, nat), NetError> {
    match split_once(p, '/') {
        None => Err(NetError::NotCidr),
        Some((ip, len)) => if ip_family(ip) == 0 {
            Err(NetError::BadAddress)
        } else {
            match parse_uint(len, u32_max()) {
                None => Err(NetError::BadLength),
                Some(n) => if n > (if ip_family(ip) == 6 {
                    128nat
                } else {
                    32nat
                }) {
                    Err(NetError::LengthTooLong)
                } else {
                    Ok((ip_family(ip) == 6, ip, n))
                },
            }
        },
    }
}

/// `asn:value` as the 32-bit community `asn << 16 | value`; both halves are
/// `u32` numbers no larger than 65535.
pub open spec fn community_value(c: Seq<char>) -> Result<nat, NetError> {
    match split_once(c, ':') {
        None => Err(NetError::NotCommunity),
        Some((a, v)) => match (parse_uint(a, u32_max()), parse_uint(v, u32_max())) {
            (Some(x), Some(y)) => if x > 65535 || y > 65535 {
                Err(NetError::CommunityOutOfRange)
            } else {
                Ok(x * 65536 + y)
            },
            _ => Err(NetError::BadCommunityNumber),
        },
    }
}

} // verus!
