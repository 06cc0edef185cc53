//! The canonical text of an IPv6 address (RFC 5952, as `Ipv6Addr`'s
//! `Display` writes it): lower-case hexadecimal groups without leading
//! zeros, the first longest run of two or more zero groups written `::`, and
//! an IPv4-mapped address as `::ffff:a.b.c.d`.
use vstd::prelude::*;

use crate::net::{
    all_groups, dec_octet, double_colon, find_double_colon, group_units, groups_ok, hex_group, ipv4_text,
    ipv6_text, is_hex,
};
use crate::text::{
    all_digits, decimal, decimal_chars, digit_value, digits_value, is_digit, join_chars, join_with,
    slice_of, split, split_chars, views, Sep,
};

verus! {

broadcast use vstd::seq_lib::group_seq_properties;

// ---------------------------------------------------------------------------
// The sixteen-bit groups of an address
// ---------------------------------------------------------------------------

/// Value of one hexadecimal digit.
pub open spec fn hex_digit_value(c: char) -> int {
    if '0' <= c && c <= '9' {
        c as int - '0' as int
    } else if 'a' <= c && c <= 'f' {
        c as int - 'a' as int + 10
    } else {
        c as int - 'A' as int + 10
    }
}

/// Value of a sequence of hexadecimal digits.
pub open spec fn hex_value(g: Seq<char>) -> int
    decreases g.len(),
{
    if g.len() == 0 {
        0
    } else {
        hex_value(g.drop_last()) * 16 + hex_digit_value(g.last())
    }
}

pub open spec fn hex_values(p: Seq<Seq<char>>) -> Seq<int> {
    Seq::new(p.len(), |i: int| hex_value(p[i]))
}

/// The two groups of an embedded dotted-quad IPv4 address.
pub open spec fn v4_groups(v: Seq<char>) -> Seq<int> {
    let o = split(v, Sep::Char('.'));
    seq![
        (digits_value(o[0]) * 256 + digits_value(o[1])) as int,
        (digits_value(o[2]) * 256 + digits_value(o[3])) as int,
    ]
}

/// The groups a part of an address (around `::`, or the whole) holds.
pub open spec fn part_groups(t: Seq<char>) -> Seq<int> {
    if t.len() == 0 {
        seq![]
    } else {
        let q = split(t, Sep::Char(':'));
        if all_groups(q) {
            hex_values(q)
        } else {
            hex_values(q.drop_last()) + v4_groups(q.last())
        }
    }
}

/// The eight groups of IPv6 text; `::` stands for as many zero groups as
/// are missing.
pub open spec fn ipv6_segments(s: Seq<char>) -> Seq<int> {
    let d = double_colon(s);
    if d < 0 {
        part_groups(s)
    } else {
        let h = part_groups(s.take(d));
        let t = part_groups(s.skip(d + 2));
        h + Seq::new((8 - h.len() - t.len()) as nat, |i: int| 0int) + t
    }
}

pub open spec fn ints(v: Seq<u32>) -> Seq<int> {
    Seq::new(v.len(), |i: int| v[i] as int)
}

pub open spec fn pow16(n: int) -> int {
    if n <= 0 {
        1
    } else if n == 1 {
        16
    } else if n == 2 {
        256
    } else if n == 3 {
        4096
    } else {
        65536
    }
}

fn hex_digit_of(c: char) -> (r: u32)
    requires
        is_hex(c),
    ensures
        r as int == hex_digit_value(c),
        r < 16,
{
    if '0' <= c && c <= '9' {
        (c as u32) - ('0' as u32)
    } else if 'a' <= c && c <= 'f' {
        (c as u32) - ('a' as u32) + 10
    } else {
        (c as u32) - ('A' as u32) + 10
    }
}

/// Value of a group of one to four hexadecimal digits.
fn hex_group_value(g: &[char]) -> (r: u32)
    requires
        hex_group(g@),
    ensures
        r as int == hex_value(g@),
        r < 65536,
{
    let mut v: u32 = 0;
    let mut i: usize = 0;
    while i < g.len()
        invariant
            i <= g@.len() <= 4,
            hex_group(g@),
            v as int == hex_value(g@.take(i as int)),
            v < pow16(i as int),
        decreases g@.len() - i,
    {
        assert(g@.take(i + 1).drop_last() == g@.take(i as int));
        assert(is_hex(g@[i as int]));
        let d = hex_digit_of(g[i]);
        v = v * 16 + d;
        i += 1;
    }
    assert(g@.take(g@.len() as int) == g@);
    v
}

/// Value of a decimal octet.
fn octet_value(o: &[char]) -> (r: u32)
    requires
        dec_octet(o@),
    ensures
        r as int == digits_value(o@),
        r <= 255,
{
    let mut v: u32 = 0;
    let mut i: usize = 0;
    while i < o.len()
        invariant
            i <= o@.len() <= 3,
            all_digits(o@),
            v as int == digits_value(o@.take(i as int)),
            v < 1000,
        decreases o@.len() - i,
    {
        assert(o@.take(i + 1).drop_last() == o@.take(i as int));
        assert(is_digit(o@[i as int]));
        let d = (o[i] as u32) - ('0' as u32);
        assert(d as int == digit_value(o@[i as int]));
        proof {
            lemma_digits_bound(o@.take(i + 1));
        }
        v = v * 10 + d;
        i += 1;
    }
    assert(o@.take(o@.len() as int) == o@);
    v
}

proof fn lemma_digits_bound(s: Seq<char>)
    requires
        all_digits(s),
        s.len() <= 3,
    ensures
        digits_value(s) < (if s.len() == 0 {
            1int
        } else if s.len() == 1 {
            10int
        } else if s.len() == 2 {
            100int
        } else {
            1000int
        }),
    decreases s.len(),
{
    if s.len() > 0 {
        assert(all_digits(s.drop_last()));
        lemma_digits_bound(s.drop_last());
        assert(is_digit(s.last()));
    }
}

/// A part holds as many groups as `group_units` counts.
proof fn lemma_part_groups_len(t: Seq<char>, allow_v4: bool)
    requires
        group_units(t, allow_v4) >= 0,
    ensures
        part_groups(t).len() == group_units(t, allow_v4),
{
}

/// The groups of a part of an address.
fn part_groups_of(t: &[char], allow_v4: bool) -> (r: Vec<u32>)
    requires
        group_units(t@, allow_v4) >= 0,
    ensures
        ints(r@) == part_groups(t@),
        r@.len() == group_units(t@, allow_v4),
        forall|i: int| 0 <= i < r@.len() ==> #[trigger] r@[i] < 65536,
{
    proof {
        lemma_part_groups_len(t@, allow_v4);
    }
    let mut out: Vec<u32> = Vec::new();
    if t.len() == 0 {
        assert(ints(out@) =~= part_groups(t@));
        return out;
    }
    let q = split_chars(t, Sep::Char(':'));
    let ghost qv = views(q@);
    assert(qv.len() == q@.len());
    assert(qv.take(q@.len() as int) == qv);
    let all = groups_ok(&q, q.len());
    let n = if all {
        q.len()
    } else {
        q.len() - 1
    };
    assert(all_groups(qv.take(n as int)));
    let mut i: usize = 0;
    while i < n
        invariant
            i <= n <= q@.len(),
            qv == views(q@),
            all_groups(qv.take(n as int)),
            out@.len() == i,
            forall|j: int| 0 <= j < i ==> #[trigger] out@[j] as int == hex_value(qv[j]) && out@[j] < 65536,
        decreases n - i,
    {
        assert(hex_group(qv.take(n as int)[i as int]));
        assert(q@[i as int]@ == qv[i as int]);
        let v = hex_group_value(q[i].as_slice());
        out.push(v);
        i += 1;
    }
    if all {
        assert(ints(out@) =~= hex_values(qv));
        return out;
    }
    assert(ipv4_text(qv.last()));
    assert(q@[n as int]@ == qv.last());
    let o = split_chars(q[n].as_slice(), Sep::Char('.'));
    let ghost ov = views(o@);
    assert(ov.len() == 4);
    assert(dec_octet(ov[0]) && dec_octet(ov[1]) && dec_octet(ov[2]) && dec_octet(ov[3]));
    assert(o@[0]@ == ov[0] && o@[1]@ == ov[1] && o@[2]@ == ov[2] && o@[3]@ == ov[3]);
    let a = octet_value(o[0].as_slice());
    let b = octet_value(o[1].as_slice());
    let c = octet_value(o[2].as_slice());
    let d = octet_value(o[3].as_slice());
    let ghost before = out@;
    out.push(a * 256 + b);
    out.push(c * 256 + d);
    assert(qv.drop_last() =~= qv.take(n as int));
    assert(ints(out@) =~= hex_values(qv.drop_last()) + v4_groups(qv.last()));
    out
}

/// The eight groups of IPv6 text; see `ipv6_segments`.
pub fn ipv6_segments_of(s: &[char]) -> (r: Vec<u32>)
    requires
        ipv6_text(s@),
    ensures
        ints(r@) == ipv6_segments(s@),
        forall|i: int| 0 <= i < r@.len() ==> #[trigger] r@[i] < 65536,
{
    match find_double_colon(s) {
        None => {
            let ghost p = split(s@, Sep::Char(':'));
            assert(s@.len() > 0) by {
                if s@.len() == 0 {
                    assert(split(s@, Sep::Char(':')) =~= seq![Seq::<char>::empty()]);
                }
            }
            assert(p.len() == 7 ==> p.take(6) == p.drop_last());
            part_groups_of(s, true)
        },
        Some(d) => {
            assert(d + 2 <= s@.len());
            assert(double_colon(s@) == d);
            let head = slice_of(s, 0, d);
            let len: usize = s.len();
            assert(d + 2 <= len);
            let lo: usize = d + 2;
            let tail = slice_of(s, lo, s.len());
            assert(head@ == s@.take(d as int));
            assert(tail@ == s@.skip(d + 2));
            let h = part_groups_of(head.as_slice(), false);
            let t = part_groups_of(tail.as_slice(), true);
            let mut out: Vec<u32> = Vec::new();
            let mut i: usize = 0;
            while i < h.len()
                invariant
                    i <= h@.len(),
                    out@.len() == i,
                    forall|j: int| 0 <= j < i ==> #[trigger] out@[j] == h@[j],
                    forall|j: int| 0 <= j < h@.len() ==> #[trigger] h@[j] < 65536,
                decreases h@.len() - i,
            {
                out.push(h[i]);
                i += 1;
            }
            let zeros: usize = 8 - h.len() - t.len();
            let mut k: usize = 0;
            while k < zeros
                invariant
                    k <= zeros,
                    out@.len() == h@.len() + k,
                    forall|j: int| 0 <= j < h@.len() ==> #[trigger] out@[j] == h@[j],
                    forall|j: int| h@.len() <= j < out@.len() ==> #[trigger] out@[j] == 0,
                    forall|j: int| 0 <= j < h@.len() ==> #[trigger] h@[j] < 65536,
                decreases zeros - k,
            {
                out.push(0);
                k += 1;
            }
            let mut m: usize = 0;
            while m < t.len()
                invariant
                    m <= t@.len(),
                    out@.len() == h@.len() + zeros + m,
                    forall|j: int| 0 <= j < h@.len() ==> #[trigger] out@[j] == h@[j],
                    forall|j: int| h@.len() <= j < h@.len() + zeros ==> #[trigger] out@[j] == 0,
                    forall|j: int| 0 <= j < m ==> #[trigger] out@[h@.len() + zeros + j] == t@[j],
                    forall|j: int| 0 <= j < h@.len() ==> #[trigger] h@[j] < 65536,
                    forall|j: int| 0 <= j < t@.len() ==> #[trigger] t@[j] < 65536,
                decreases t@.len() - m,
            {
                out.push(t[m]);
                m += 1;
            }
            let ghost hs = part_groups(s@.take(d as int));
            let ghost ts = part_groups(s@.skip(d + 2));
            assert(ints(h@) == hs && ints(t@) == ts);
            let ghost zs = Seq::new((8 - hs.len() - ts.len()) as nat, |i: int| 0int);
            assert forall|j: int| 0 <= j < out@.len() implies #[trigger] ints(out@)[j] == (hs + zs + ts)[j] by {
                if j < h@.len() {
                    assert(ints(h@)[j] == h@[j] as int);
                } else if j < h@.len() + zeros {
                } else {
                    let q = j - h@.len() - zeros;
                    assert(out@[h@.len() + zeros + q] == t@[q]);
                    assert(ints(t@)[q] == t@[q] as int);
                }
            }
            assert(ints(out@) =~= hs + zs + ts);
            assert forall|j: int| 0 <= j < out@.len() implies #[trigger] out@[j] < 65536 by {
                if j < h@.len() {
                } else if j < h@.len() + zeros {
                } else {
                    let q = j - h@.len() - zeros;
                    assert(out@[h@.len() + zeros + q] == t@[q]);
                }
            }
            out
        },
    }
}

// ---------------------------------------------------------------------------
// Writing the groups
// ---------------------------------------------------------------------------

/// Lower-case hexadecimal digit of `d` (below 16).
pub open spec fn hex_char(d: int) -> char {
    if d == 0 {
        '0'
    } else if d == 1 {
        '1'
    } else if d == 2 {
        '2'
    } else if d == 3 {
        '3'
    } else if d == 4 {
        '4'
    } else if d == 5 {
        '5'
    } else if d == 6 {
        '6'
    } else if d == 7 {
        '7'
    } else if d == 8 {
        '8'
    } else if d == 9 {
        '9'
    } else if d == 10 {
        'a'
    } else if d == 11 {
        'b'
    } else if d == 12 {
        'c'
    } else if d == 13 {
        'd'
    } else if d == 14 {
        'e'
    } else {
        'f'
    }
}

/// `v` in lower-case hexadecimal without leading zeros (`{:x}`).
pub open spec fn hex_text(v: nat) -> Seq<char>
    decreases v,
{
    if v < 16 {
        seq![hex_char(v as int)]
    } else {
        hex_text(v / 16).push(hex_char((v % 16) as int))
    }
}

/// The groups in hexadecimal, separated by `:`.
pub open spec fn segs_text(segs: Seq<int>) -> Seq<char> {
    join_with(Seq::new(segs.len(), |i: int| hex_text(segs[i] as nat)), seq![':'])
}

/// Scanning the groups in order: start and length of the first longest run
/// of zero groups so far, and of the run in progress.
pub open spec fn zero_run(segs: Seq<int>) -> (int, int, int, int)
    decreases segs.len(),
{
    if segs.len() == 0 {
        (0, 0, 0, 0)
    } else {
        let (bs, bl, cs, cl) = zero_run(segs.drop_last());
        if segs.last() == 0 {
            let ncs = if cl == 0 {
                segs.len() - 1
            } else {
                cs
            };
            if cl + 1 > bl {
                (ncs, cl + 1, ncs, cl + 1)
            } else {
                (bs, bl, ncs, cl + 1)
            }
        } else {
            (bs, bl, 0, 0)
        }
    }
}

/// `::ffff:` followed by an IPv4 address (`Ipv6Addr::to_ipv4_mapped`).
pub open spec fn v4_mapped(segs: Seq<int>) -> bool {
    segs.len() == 8 && segs[0] == 0 && segs[1] == 0 && segs[2] == 0 && segs[3] == 0 && segs[4] == 0
        && segs[5] == 65535
}

/// The dotted-quad text of the last two groups.
pub open spec fn mapped_v4_text(segs: Seq<int>) -> Seq<char> {
    decimal((segs[6] / 256) as nat) + seq!['.'] + decimal((segs[6] % 256) as nat) + seq!['.']
        + decimal((segs[7] / 256) as nat) + seq!['.'] + decimal((segs[7] % 256) as nat)
}

/// The canonical text of the groups.
pub open spec fn ipv6_canonical(segs: Seq<int>) -> Seq<char> {
    if v4_mapped(segs) {
        seq![':', ':', 'f', 'f', 'f', 'f', ':'] + mapped_v4_text(segs)
    } else {
        let (st, ln, _, _) = zero_run(segs);
        if ln > 1 {
            segs_text(segs.take(st)) + seq![':', ':'] + segs_text(segs.skip(st + ln))
        } else {
            segs_text(segs)
        }
    }
}

/// The address text GoBGP is given: IPv4 text as it is (its parser allows
/// no other form), IPv6 text in its canonical form.
pub open spec fn canonical_ip_text(ip: Seq<char>, is_ipv6: bool) -> Seq<char> {
    if is_ipv6 {
        ipv6_canonical(ipv6_segments(ip))
    } else {
        ip
    }
}

fn hex_char_of(d: u32) -> (r: char)
    requires
        d < 16,
    ensures
        r == hex_char(d as int),
{
    if d == 0 {
        '0'
    } else if d == 1 {
        '1'
    } else if d == 2 {
        '2'
    } else if d == 3 {
        '3'
    } else if d == 4 {
        '4'
    } else if d == 5 {
        '5'
    } else if d == 6 {
        '6'
    } else if d == 7 {
        '7'
    } else if d == 8 {
        '8'
    } else if d == 9 {
        '9'
    } else if d == 10 {
        'a'
    } else if d == 11 {
        'b'
    } else if d == 12 {
        'c'
    } else if d == 13 {
        'd'
    } else if d == 14 {
        'e'
    } else {
        'f'
    }
}

fn hex_text_of(v: u32) -> (r: Vec<char>)
    ensures
        r@ == hex_text(v as nat),
    decreases v,
{
    if v < 16 {
        let mut r = Vec::new();
        r.push(hex_char_of(v));
        assert(r@ =~= seq![hex_char(v as int)]);
        r
    } else {
        let mut r = hex_text_of(v / 16);
        r.push(hex_char_of(v % 16));
        r
    }
}

fn segs_text_of(segs: &[u32]) -> (r: Vec<char>)
    ensures
        r@ == segs_text(ints(segs@)),
{
    let mut texts: Vec<Vec<char>> = Vec::new();
    let mut i: usize = 0;
    while i < segs.len()
        invariant
            i <= segs@.len(),
            views(texts@) == Seq::new(i as nat, |j: int| hex_text(segs@[j] as nat)),
        decreases segs@.len() - i,
    {
        let ghost before = views(texts@);
        let t = hex_text_of(segs[i]);
        let ghost tv = t@;
        texts.push(t);
        assert(views(texts@) =~= before.push(tv));
        assert(views(texts@) =~= Seq::new((i + 1) as nat, |j: int| hex_text(segs@[j] as nat)));
        i += 1;
    }
    let sep: &[char] = &[':'];
    assert(sep@ =~= seq![':']);
    assert(views(texts@) =~= Seq::new(ints(segs@).len(), |j: int| hex_text(ints(segs@)[j] as nat)));
    join_chars(&texts, sep)
}

/// The first longest run of zero groups: start and length.
fn zero_run_of(segs: &[u32]) -> (r: (usize, usize))
    ensures
        r.0 as int == zero_run(ints(segs@)).0,
        r.1 as int == zero_run(ints(segs@)).1,
        r.0 + r.1 <= segs@.len(),
{
    let mut bs: usize = 0;
    let mut bl: usize = 0;
    let mut cs: usize = 0;
    let mut cl: usize = 0;
    let mut i: usize = 0;
    while i < segs.len()
        invariant
            i <= segs@.len(),
            zero_run(ints(segs@).take(i as int)) == (bs as int, bl as int, cs as int, cl as int),
            bs + bl <= i,
            cs + cl == i || cl == 0,
            cl <= i,
        decreases segs@.len() - i,
    {
        assert(ints(segs@).take(i + 1).drop_last() == ints(segs@).take(i as int));
        assert(ints(segs@).take(i + 1).last() == segs@[i as int] as int);
        if segs[i] == 0 {
            if cl == 0 {
                cs = i;
            }
            cl = cl + 1;
            if cl > bl {
                bs = cs;
                bl = cl;
            }
        } else {
            cs = 0;
            cl = 0;
        }
        i += 1;
    }
    assert(ints(segs@).take(segs@.len() as int) == ints(segs@));
    (bs, bl)
}

/// Canonical text of the IPv6 address `s`; see `ipv6_canonical`.
pub fn ipv6_canonical_of(s: &[char]) -> (r: Vec<char>)
    requires
        ipv6_text(s@),
    ensures
        r@ == ipv6_canonical(ipv6_segments(s@)),
{
    let g = ipv6_segments_of(s);
    let ghost gs = ints(g@);
    if g.len() == 8 && g[0] == 0 && g[1] == 0 && g[2] == 0 && g[3] == 0 && g[4] == 0 && g[5] == 65535 {
        assert(v4_mapped(gs));
        let mut r: Vec<char> = vec![':', ':', 'f', 'f', 'f', 'f', ':'];
        let parts: [u64; 4] = [(g[6] / 256) as u64, (g[6] % 256) as u64, (g[7] / 256) as u64, (g[7] % 256) as u64];
        crate::text::append(&mut r, decimal_chars(parts[0]).as_slice());
        r.push('.');
        crate::text::append(&mut r, decimal_chars(parts[1]).as_slice());
        r.push('.');
        crate::text::append(&mut r, decimal_chars(parts[2]).as_slice());
        r.push('.');
        crate::text::append(&mut r, decimal_chars(parts[3]).as_slice());
        assert(r@ =~= seq![':', ':', 'f', 'f', 'f', 'f', ':'] + mapped_v4_text(gs));
        return r;
    }
    assert(!v4_mapped(gs));
    let (st, ln) = zero_run_of(g.as_slice());
    if ln > 1 {
        let mut r = segs_text_of(&g.as_slice()[0..st]);
        r.push(':');
        r.push(':');
        let rest = segs_text_of(&g.as_slice()[st + ln..g.len()]);
        crate::text::append(&mut r, rest.as_slice());
        assert(ints(g@.subrange(0, st as int)) =~= gs.take(st as int));
        assert(ints(g@.subrange((st + ln) as int, g@.len() as int)) =~= gs.skip((st + ln) as int));
        assert(r@ =~= segs_text(gs.take(st as int)) + seq![':', ':'] + segs_text(gs.skip((st + ln) as int)));
        r
    } else {
        segs_text_of(g.as_slice())
    }
}

/// The address text GoBGP is given; see `canonical_ip_text`.
pub fn canonical_ip(ip: &[char], is_ipv6: bool) -> (r: Vec<char>)
    requires
        is_ipv6 ==> ipv6_text(ip@),
    ensures
        r@ == canonical_ip_text(ip@, is_ipv6),
{
    if is_ipv6 {
        ipv6_canonical_of(ip)
    } else {
        slice_of(ip, 0, ip.len())
    }
}

} // verus!
