//! Properties of the library as a whole: how its parts fit together.
use vstd::prelude::*;

use crate::calendar::{civil_day, civil_month, civil_parse_hm, civil_parse_ymd, civil_year, date_text, year_text, zero_pad};
use crate::config::{
    community_for, community_from_old_of, ip_version_of, ip_version_text, layered, next_hop_for,
    nonempty, opt_view, text_setting, IpVersion, Settings,
};
use crate::country::{country_numeric, iso_numeric, lemma_iso_round_trip, numeric_country};
use crate::assoc::{lemma_assoc_dom, to_assoc};
use crate::dns::{
    dns_line, dns_lines, family_of, graced, is_v6_prefix, lookup_of, save_line, save_lines,
    snapshot_of_lines, snapshot_prefixes, trim_end_dots, within_grace, DomainLookup, LookupFamily,
    RecordKey, DNS_COMMUNITY,
};
use crate::schedule::{
    first_run_day, increasing, ints_u32, interval_token, lifecycle_ok, month_day_parts, month_days_token,
    next_run_date_after, parses_to, read_tokens, schedule_from_tokens, sorted_distinct_of, weekday_indices,
    SyncSchedule, SyncUnit,
};
use crate::net::{
    all_groups, cidr_spec, dec_octet, double_colon, group_units, hex_group, ip_family, ipv4_text,
    ipv6_text, is_hex, octet_ok, valid_cidr,
};
use crate::prefix_map::strictly_sorted;
use crate::route::{snapshot_entries, snapshot_entry, snapshot_line, snapshot_of, snapshot_text};
use crate::scheduler::{attr_text_ok, has_prefix, scan_state, scope_text, sorted_map_text};
use crate::strmap::to_map;
use crate::text::{
    all_ascii, all_digits, char_index, decimal, digit_char, two_digits, digit_value, digits_value, is_digit, is_sep, is_ws,
    join_with, lemma_char_index, lines, no_ws, parse_uint, split, split_once, split_state,
    lower_text, upper_ascii, upper_text, string_views, strip_cr, trim, trim_end, trim_start, unsigned_digits, words, Sep,
};

verus! {

broadcast use vstd::seq_lib::group_seq_properties;

// ---------------------------------------------------------------------------
// Small facts about text
// ---------------------------------------------------------------------------

proof fn lemma_digit_char(d: nat)
    requires
        d < 10,
    ensures
        is_digit(digit_char(d)),
        digit_value(digit_char(d)) == d,
        !is_ws(digit_char(d)),
        digit_char(d) != ':',
        digit_char(d) != '+',
{
}

/// `decimal(n)`: digits, at least one, worth `n`.
pub proof fn lemma_decimal(n: nat)
    ensures
        decimal(n).len() > 0,
        all_digits(decimal(n)),
        digits_value(decimal(n)) == n,
        forall|i: int| 0 <= i < decimal(n).len() ==> !is_ws(#[trigger] decimal(n)[i]) && decimal(n)[i]
            != ':' && decimal(n)[i] != '+',
    decreases n,
{
    if n < 10 {
        lemma_digit_char(n);
        assert(decimal(n).drop_last() =~= Seq::<char>::empty());
        assert(digits_value(Seq::<char>::empty()) == 0);
    } else {
        lemma_decimal(n / 10);
        lemma_digit_char(n % 10);
        let d = decimal(n);
        assert(d.drop_last() == decimal(n / 10));
        assert(d.last() == digit_char(n % 10));
        assert((n / 10) * 10 + n % 10 == n) by (nonlinear_arith);
        assert(digits_value(d) == digits_value(decimal(n / 10)) * 10 + digit_value(digit_char(n % 10)));
        assert forall|i: int| 0 <= i < d.len() implies is_digit(#[trigger] d[i]) by {
            if i < d.len() - 1 {
                assert(d[i] == decimal(n / 10)[i]);
            }
        }
        assert forall|i: int| 0 <= i < d.len() implies !is_ws(#[trigger] d[i]) && d[i] != ':' && d[i]
            != '+' by {
            if i < d.len() - 1 {
                assert(d[i] == decimal(n / 10)[i]);
            }
        }
    }
}

/// Reading back a number's decimal text gives the number.
pub proof fn lemma_parse_decimal(n: nat, max: nat)
    requires
        n <= max,
    ensures
        parse_uint(decimal(n), max) == Some(n),
{
    lemma_decimal(n);
    assert(unsigned_digits(decimal(n)) == decimal(n));
}

/// Text with no white space at its ends is its own trim.
pub proof fn lemma_trim_noop(s: Seq<char>)
    requires
        s.len() > 0 ==> !is_ws(s[0]) && !is_ws(s.last()),
    ensures
        trim(s) == s,
{
    assert(trim_start(s) == s);
    assert(trim_end(s) == s);
}

/// Splitting `a:b` at the first `:` gives `a` and `b` when `a` has none.
pub proof fn lemma_split_at_colon(a: Seq<char>, b: Seq<char>)
    requires
        !a.contains(':'),
    ensures
        split_once(a + seq![':'] + b, ':') == Some((a, b)),
{
    lemma_split_at(a, ':', b);
}

/// Splitting `a` `c` `b` at the first `c` gives `a` and `b` when `a` has
/// none.
pub proof fn lemma_split_at(a: Seq<char>, c: char, b: Seq<char>)
    requires
        !a.contains(c),
    ensures
        split_once(a + seq![c] + b, c) == Some((a, b)),
{
    let s = a + seq![c] + b;
    lemma_char_index(s, c);
    assert(s[a.len() as int] == c);
    assert(s.contains(c));
    let i = char_index(s, c);
    assert(i == a.len()) by {
        if i < a.len() {
            assert(a[i] == s[i]);
        }
    }
    assert(s.take(i) =~= a);
    assert(s.skip(i + 1) =~= b);
}

// ---------------------------------------------------------------------------
// Lines of text
// ---------------------------------------------------------------------------

/// Reading on through text without the separator extends the piece in
/// progress.
pub proof fn lemma_split_state_append(s: Seq<char>, x: Seq<char>, c: char)
    requires
        !x.contains(c),
    ensures
        split_state(s + x, Sep::Char(c)) == (split_state(s, Sep::Char(c)).0, split_state(
            s,
            Sep::Char(c),
        ).1 + x),
    decreases x.len(),
{
    if x.len() == 0 {
        assert(s + x == s);
        assert(split_state(s, Sep::Char(c)).1 + x == split_state(s, Sep::Char(c)).1);
    } else {
        let y = x.drop_last();
        assert(!y.contains(c)) by {
            if y.contains(c) {
                let k = choose|k: int| 0 <= k < y.len() && y[k] == c;
                assert(x[k] == c);
            }
        }
        lemma_split_state_append(s, y, c);
        assert((s + x).drop_last() == s + y);
        assert((s + x).last() == x.last());
        assert(x.last() != c);
        assert(split_state(s, Sep::Char(c)).1 + y + seq![x.last()] =~= split_state(s, Sep::Char(c)).1 + x);
    }
}

/// Splitting joined pieces that hold no separator gives the pieces back.
pub proof fn lemma_split_join(ls: Seq<Seq<char>>, c: char)
    requires
        ls.len() > 0,
        forall|i: int| 0 <= i < ls.len() ==> !(#[trigger] ls[i]).contains(c),
    ensures
        split_state(join_with(ls, seq![c]), Sep::Char(c)) == (ls.drop_last(), ls.last()),
        split(join_with(ls, seq![c]), Sep::Char(c)) == ls,
    decreases ls.len(),
{
    if ls.len() == 1 {
        lemma_split_state_append(Seq::empty(), ls[0], c);
        assert(Seq::<char>::empty() + ls[0] == ls[0]);
        assert(ls.drop_last() =~= Seq::<Seq<char>>::empty());
    } else {
        let init = ls.drop_last();
        lemma_split_join(init, c);
        let j = join_with(init, seq![c]);
        assert((j + seq![c]).drop_last() == j);
        assert((j + seq![c]).last() == c);
        assert(split_state(j + seq![c], Sep::Char(c)) == (init, Seq::<char>::empty())) by {
            assert(init.drop_last().push(init.last()) =~= init);
        }
        lemma_split_state_append(j + seq![c], ls.last(), c);
        assert(Seq::<char>::empty() + ls.last() == ls.last());
        assert(join_with(ls, seq![c]) == j + seq![c] + ls.last());
    }
    assert(ls.drop_last().push(ls.last()) =~= ls);
}

/// `str::lines` of lines joined by newlines gives them back, when none is
/// empty, holds a newline or ends in a carriage return.
pub proof fn lemma_lines_join(ls: Seq<Seq<char>>)
    requires
        forall|i: int|
            0 <= i < ls.len() ==> (#[trigger] ls[i]).len() > 0 && !ls[i].contains('\n')
                && ls[i].last() != '\r',
    ensures
        lines(join_with(ls, seq!['\n'])) == ls,
{
    if ls.len() == 0 {
        assert(join_with(ls, seq!['\n']) == Seq::<char>::empty());
        assert(split_state(Seq::<char>::empty(), Sep::Char('\n')) == (
            Seq::<Seq<char>>::empty(),
            Seq::<char>::empty(),
        ));
        assert(split(Seq::<char>::empty(), Sep::Char('\n')) =~= seq![Seq::<char>::empty()]);
        assert(lines(join_with(ls, seq!['\n'])) =~= ls);
    } else {
        lemma_split_join(ls, '\n');
        let p = split(join_with(ls, seq!['\n']), Sep::Char('\n'));
        assert(p == ls);
        assert(p.drop_last().map_values(|x: Seq<char>| strip_cr(x)) =~= ls.drop_last());
        assert(ls.drop_last().push(ls.last()) =~= ls);
    }
}

/// `str::lines` of lines each ended by a newline gives them back, each
/// without a carriage return at its end.
pub proof fn lemma_lines_terminated(ls: Seq<Seq<char>>)
    requires
        ls.len() > 0,
        forall|i: int| 0 <= i < ls.len() ==> !(#[trigger] ls[i]).contains('\n'),
    ensures
        lines(join_with(ls, seq!['\n']) + seq!['\n']) == ls.map_values(|x: Seq<char>| strip_cr(x)),
{
    lemma_split_join(ls, '\n');
    let j = join_with(ls, seq!['\n']);
    let t = j + seq!['\n'];
    assert(t.drop_last() == j);
    assert(t.last() == '\n');
    assert(ls.drop_last().push(ls.last()) =~= ls);
    assert(split_state(t, Sep::Char('\n')) == (ls, Seq::<char>::empty()));
    let p = split(t, Sep::Char('\n'));
    assert(p == ls.push(Seq::<char>::empty()));
    assert(p.drop_last() =~= ls);
    assert(lines(t) =~= ls.map_values(|x: Seq<char>| strip_cr(x)));
}

// ---------------------------------------------------------------------------
// Prefix snapshots
// ---------------------------------------------------------------------------

/// A pair the snapshot file can hold as it is: a valid prefix without white
/// space at its ends, space or newline; a community without white space at
/// its ends or newline.
pub open spec fn snapshot_safe(e: (Seq<char>, Seq<char>)) -> bool {
    &&& valid_cidr(e.0)
    &&& !is_ws(e.0[0]) && !is_ws(e.0.last())
    &&& !e.0.contains(' ') && !e.0.contains('\n')
    &&& e.1.len() > 0 ==> !is_ws(e.1[0]) && !is_ws(e.1.last())
    &&& !e.1.contains('\n')
}

proof fn lemma_snapshot_line_entry(e: (Seq<char>, Seq<char>))
    requires
        snapshot_safe(e),
    ensures
        snapshot_entry(snapshot_line(e)) == Some(e),
        snapshot_line(e).len() > 0,
        !snapshot_line(e).contains('\n'),
        snapshot_line(e).last() != '\r',
{
    let (k, v) = e;
    assert(k.len() > 0) by {
        if k.len() == 0 {
            assert(split_once(k, '/') is None) by {
                lemma_char_index(k, '/');
            }
        }
    }
    lemma_trim_noop(k);
    let l = snapshot_line(e);
    if v.len() == 0 {
        assert(l == k);
        lemma_char_index(k, ' ');
        assert(split_once(k, ' ') is None);
    } else {
        lemma_trim_noop(v);
        lemma_split_at(k, ' ', v);
        assert(l[0] == k[0]);
        assert(l.last() == v.last());
        lemma_trim_noop(l);
        assert(!l.contains('\n')) by {
            if l.contains('\n') {
                let q = choose|q: int| 0 <= q < l.len() && l[q] == '\n';
                if q < k.len() {
                    assert(k[q] == '\n');
                } else if q > k.len() {
                    assert(v[q - k.len() - 1] == '\n');
                }
            }
        }
    }
}

/// A table written as a snapshot file reads back as the same table, when
/// each of its pairs is `snapshot_safe`.
pub proof fn law_snapshot_round_trip(ps: Seq<(Seq<char>, Seq<char>)>)
    requires
        strictly_sorted(ps),
        forall|i: int| 0 <= i < ps.len() ==> snapshot_safe(#[trigger] ps[i]),
    ensures
        snapshot_of(snapshot_text(ps)) == to_map(ps),
{
    let ls = ps.map_values(|e: (Seq<char>, Seq<char>)| snapshot_line(e));
    assert forall|i: int| 0 <= i < ls.len() implies (#[trigger] ls[i]).len() > 0 && !ls[i].contains(
        '\n',
    ) && ls[i].last() != '\r' by {
        lemma_snapshot_line_entry(ps[i]);
    }
    lemma_lines_join(ls);
    lemma_snapshot_entries(ps);
}

proof fn lemma_snapshot_entries(ps: Seq<(Seq<char>, Seq<char>)>)
    requires
        forall|i: int| 0 <= i < ps.len() ==> snapshot_safe(#[trigger] ps[i]),
    ensures
        snapshot_entries(ps.map_values(|e: (Seq<char>, Seq<char>)| snapshot_line(e))) == ps,
    decreases ps.len(),
{
    let ls = ps.map_values(|e: (Seq<char>, Seq<char>)| snapshot_line(e));
    if ps.len() > 0 {
        lemma_snapshot_entries(ps.drop_last());
        assert(ls.drop_last() =~= ps.drop_last().map_values(|e: (Seq<char>, Seq<char>)| snapshot_line(e)));
        lemma_snapshot_line_entry(ps.last());
        assert(ps.drop_last().push(ps.last()) =~= ps);
    } else {
        assert(ls =~= Seq::<Seq<char>>::empty());
    }
}

// ---------------------------------------------------------------------------
// Settings
// ---------------------------------------------------------------------------

/// A setting given on the command line (not blank) wins over the config
/// file, which wins over the built-in default; values are trimmed.
pub proof fn law_setting_precedence(cli: Option<String>, file: Option<String>, dflt: Seq<char>)
    ensures
        nonempty(opt_view(cli)) is Some ==> text_setting(cli, file, dflt) == trim(cli->0@),
        nonempty(opt_view(cli)) is None && nonempty(opt_view(file)) is Some ==> text_setting(
            cli,
            file,
            dflt,
        ) == trim(file->0@),
        nonempty(opt_view(cli)) is None && nonempty(opt_view(file)) is None ==> text_setting(
            cli,
            file,
            dflt,
        ) == dflt,
{
}

/// The name of an IP version reads back as that version, as written and
/// in upper case.
pub proof fn law_ip_version_round_trip(v: IpVersion)
    ensures
        ip_version_of(ip_version_text(v)) == v,
        ip_version_of(upper_text(ip_version_text(v))) == v,
{
    reveal(upper_text);
    let t = ip_version_text(v);
    assert(all_ascii(t));
    let u = t.map_values(|c: char| upper_ascii(c));
    match v {
        IpVersion::Ipv4 => {
            assert(u =~= seq!['I', 'P', 'V', '4']);
        },
        IpVersion::Ipv6 => {
            assert(u =~= seq!['I', 'P', 'V', '6']);
        },
        IpVersion::Dual => {
            assert(u =~= seq!['D', 'U', 'A', 'L']);
            assert(u != seq!['I', 'P', 'V', '4'] && u != seq!['I', 'P', 'V', '6']) by {
                assert(u[0] != 'I');
            }
        },
    }
    assert(all_ascii(u));
    assert(u.map_values(|c: char| upper_ascii(c)) =~= u);
}

// ---------------------------------------------------------------------------
// Sync schedules
// ---------------------------------------------------------------------------

/// Month days read from comma-separated parts lie in 1..=31.
proof fn lemma_month_day_parts_range(parts: Seq<Seq<char>>)
    ensures
        month_day_parts(parts) matches Some(s) ==> forall|i: int| 0 <= i < s.len() ==> 1 <= #[trigger] s[i] <= 31,
    decreases parts.len(),
{
    if parts.len() > 0 {
        lemma_month_day_parts_range(parts.drop_last());
    }
}

/// What the tokens read so far set is in range: a count of at least one, a
/// time of day, month days in 1..=31; without an interval token no unit.
proof fn lemma_read_tokens_range(toks: Seq<Seq<char>>)
    ensures
        read_tokens(toks).1 >= 1,
        read_tokens(toks).0 matches Some((h, m)) ==> 0 <= h < 24 && 0 <= m < 60,
        forall|i: int| 0 <= i < read_tokens(toks).4.len() ==> 1 <= #[trigger] read_tokens(toks).4[i] <= 31,
        (forall|i: int| 0 <= i < toks.len() ==> interval_token(trim(#[trigger] toks[i])) is None)
            ==> read_tokens(toks).2 is None,
    decreases toks.len(),
{
    if toks.len() > 0 {
        let init = toks.drop_last();
        lemma_read_tokens_range(init);
        let t = trim(toks.last());
        lemma_month_day_parts_range(split(t, Sep::Char(',')));
        let st = read_tokens(init);
        let r = read_tokens(toks);
        if month_days_token(t) is Some {
            let md = month_days_token(t).unwrap();
            assert forall|i: int| 0 <= i < (st.4 + md).len() implies 1 <= #[trigger] (st.4 + md)[i] <= 31 by {
                if i >= st.4.len() {
                    assert((st.4 + md)[i] == md[i - st.4.len()]);
                }
            }
        }
        if forall|i: int| 0 <= i < toks.len() ==> interval_token(trim(#[trigger] toks[i])) is None {
            assert forall|i: int| 0 <= i < init.len() implies interval_token(trim(#[trigger] init[i])) is None by {
                assert(init[i] == toks[i]);
            }
            assert(interval_token(trim(toks[toks.len() - 1])) is None);
        }
    }
}

/// `out` holds something exactly when `src` does.
proof fn lemma_sorted_distinct_len(out: Seq<int>, src: Seq<int>)
    requires
        sorted_distinct_of(out, src),
    ensures
        out.len() > 0 <==> src.len() > 0,
{
    if out.len() > 0 {
        assert(out.contains(out[0]));
    }
    if src.len() > 0 {
        assert(src.contains(src[0]));
    }
}

/// What `SyncSchedule::parse` gives is a well-formed schedule: a period of
/// at least one unit, a valid time, weekdays and month days sorted without
/// repeats, month days within 1..=31. When no token is an interval, the
/// unit is a week if weekdays are given, else a month if month days are
/// given, else a day.
pub proof fn law_parse_schedule(raw: Seq<char>, r: SyncSchedule)
    requires
        parses_to(raw, r),
    ensures
        r.wf(),
        (forall|i: int|
            0 <= i < split(trim(raw), Sep::WsOrSlash).len() ==> interval_token(
                trim(#[trigger] split(trim(raw), Sep::WsOrSlash)[i]),
            ) is None) ==> r.unit == (if r.weekdays@.len() > 0 {
            SyncUnit::Week
        } else if r.month_days@.len() > 0 {
            SyncUnit::Month
        } else {
            SyncUnit::Day
        }),
{
    let t = trim(raw);
    if t.len() == 0 || civil_parse_hm(t) is Some {
        assert(weekday_indices(r.weekdays@).len() == 0);
        assert(ints_u32(r.month_days@).len() == 0);
    } else {
        let toks = split(t, Sep::WsOrSlash);
        let st = read_tokens(toks);
        lemma_read_tokens_range(toks);
        assert(schedule_from_tokens(r, st));
        let wi = weekday_indices(r.weekdays@);
        let mi = ints_u32(r.month_days@);
        lemma_sorted_distinct_len(wi, st.3);
        lemma_sorted_distinct_len(mi, st.4);
        assert forall|i: int| 0 <= i < r.month_days@.len() implies 1 <= #[trigger] r.month_days@[i] <= 31 by {
            assert(mi[i] == r.month_days@[i] as int);
            assert(mi.contains(mi[i]));
            assert(st.4.contains(mi[i]));
        }
    }
}

// ---------------------------------------------------------------------------
// Communities and next hops
// ---------------------------------------------------------------------------

/// The community of a known country is `ASN:numeric code`.
pub proof fn law_country_community(country: Seq<char>, asn: Seq<char>)
    requires
        country_numeric(country) is Some,
    ensures
        community_for(country, asn) == asn + seq![':'] + decimal(
            country_numeric(country)->0 as nat,
        ),
{
}

/// Carrying a country's community over to another ASN gives that country's
/// community under the new ASN (the old ASN has no `:`).
pub proof fn law_rewrite_keeps_country(country: Seq<char>, old_asn: Seq<char>, new_asn: Seq<char>)
    requires
        country_numeric(country) is Some,
        !old_asn.contains(':'),
    ensures
        community_from_old_of(community_for(country, old_asn), new_asn) == community_for(
            country,
            new_asn,
        ),
{
    let n = country_numeric(country)->0;
    let d = decimal(n as nat);
    lemma_split_at_colon(old_asn, d);
    lemma_decimal(n as nat);
    lemma_trim_noop(d);
    lemma_parse_decimal(n as nat, 65535);
    lemma_iso_round_trip(country[0], country[1], n);
    assert(seq![country[0], country[1]] =~= country);
    assert(numeric_country(n) == Some(country));
}

/// A route of a country whose numeric code has an override gets the
/// override as next hop; without one it gets the default.
pub proof fn law_override_wins(
    overrides: Map<Seq<char>, Seq<char>>,
    dflt: Seq<char>,
    country: Seq<char>,
    asn: Seq<char>,
)
    requires
        country_numeric(country) is Some,
        !asn.contains(':'),
    ensures
        ({
            let code = decimal(country_numeric(country)->0 as nat);
            next_hop_for(overrides, dflt, community_for(country, asn)) == if overrides.dom().contains(
                code,
            ) {
                overrides[code]
            } else {
                dflt
            }
        }),
{
    let d = decimal(country_numeric(country)->0 as nat);
    lemma_split_at_colon(asn, d);
}

// ---------------------------------------------------------------------------
// DNS routes
// ---------------------------------------------------------------------------

/// A domain no longer listed keeps no route, whatever the grace period.
pub proof fn law_unlisted_domain_dropped(
    old: Map<RecordKey, int>,
    lookups: Seq<(String, DomainLookup)>,
    domains: Seq<Seq<char>>,
    now: int,
    grace: u64,
    k: RecordKey,
)
    requires
        !domains.contains(k.0),
    ensures
        !graced(old, lookups, domains, now, grace).dom().contains(k),
{
}

/// An address a lookup returns is announced, seen now.
pub proof fn law_returned_address_kept(
    old: Map<RecordKey, int>,
    lookups: Seq<(String, DomainLookup)>,
    domains: Seq<Seq<char>>,
    now: int,
    grace: u64,
    k: RecordKey,
)
    requires
        domains.contains(k.0),
        family_of(lookup_of(lookups, k.0), k.1) matches LookupFamily::Hit(live) && string_views(
            live@,
        ).contains(k.2),
    ensures
        graced(old, lookups, domains, now, grace).dom().contains(k),
        graced(old, lookups, domains, now, grace)[k] == now,
{
}

/// An address a lookup no longer returns (or a failed lookup) stays with
/// its old time while within the grace period, and is dropped after it.
pub proof fn law_grace_period(
    old: Map<RecordKey, int>,
    lookups: Seq<(String, DomainLookup)>,
    domains: Seq<Seq<char>>,
    now: int,
    grace: u64,
    k: RecordKey,
)
    requires
        domains.contains(k.0),
        old.dom().contains(k),
        match family_of(lookup_of(lookups, k.0), k.1) {
            LookupFamily::Hit(live) => !string_views(live@).contains(k.2),
            LookupFamily::Miss => true,
            LookupFamily::Skipped => false,
        },
    ensures
        within_grace(old[k], now, grace) ==> graced(old, lookups, domains, now, grace).dom().contains(k)
            && graced(old, lookups, domains, now, grace)[k] == old[k],
        !within_grace(old[k], now, grace) ==> !graced(old, lookups, domains, now, grace).dom().contains(
            k,
        ),
{
}

/// Withdrawing the prefixes gone and announcing the new ones turns the old
/// prefix set into the new one.
pub proof fn law_dns_diff_applies(old: Map<RecordKey, int>, new: Map<RecordKey, int>)
    ensures
        snapshot_prefixes(old).difference(
            Set::new(|p: Seq<char>| snapshot_prefixes(old).contains(p) && !snapshot_prefixes(new).contains(p)),
        ).union(
            Set::new(|p: Seq<char>| snapshot_prefixes(new).contains(p) && !snapshot_prefixes(old).contains(p)),
        ) == snapshot_prefixes(new),
{
    assert(snapshot_prefixes(old).difference(
        Set::new(|p: Seq<char>| snapshot_prefixes(old).contains(p) && !snapshot_prefixes(new).contains(p)),
    ).union(
        Set::new(|p: Seq<char>| snapshot_prefixes(new).contains(p) && !snapshot_prefixes(old).contains(p)),
    ) =~= snapshot_prefixes(new));
}

/// With an empty domains file every DNS prefix is withdrawn.
pub proof fn law_empty_domains_withdraw_all(
    old: Map<RecordKey, int>,
    lookups: Seq<(String, DomainLookup)>,
    now: int,
    grace: u64,
)
    ensures
        graced(old, lookups, Seq::<Seq<char>>::empty(), now, grace) == Map::<RecordKey, int>::empty(),
        snapshot_prefixes(Map::<RecordKey, int>::empty()) == Set::<Seq<char>>::empty(),
{
    assert(graced(old, lookups, Seq::<Seq<char>>::empty(), now, grace) =~= Map::<RecordKey, int>::empty());
    assert(snapshot_prefixes(Map::<RecordKey, int>::empty()) =~= Set::<Seq<char>>::empty());
}

// ---------------------------------------------------------------------------
// Schedule
// ---------------------------------------------------------------------------

proof fn lemma_first_run_day_after(s: SyncSchedule, d: int, last: Option<int>, fuel: nat)
    ensures
        first_run_day(s, d, last, fuel) matches Some(x) ==> x >= d,
    decreases fuel,
{
    if fuel > 0 {
        lemma_first_run_day_after(s, d + 1, last, (fuel - 1) as nat);
    }
}

/// A list fetched on a day is still current that day.
pub proof fn law_fetch_current_on_its_day(s: SyncSchedule, d: int)
    ensures
        lifecycle_ok(s, d, d),
{
    lemma_first_run_day_after(s, d + 1, Some(d), 400);
}

// ---------------------------------------------------------------------------
// The state file of the country scheduler
// ---------------------------------------------------------------------------

/// A value that `str::lines` gives back as it is at the end of a line: no
/// line break, no carriage return at its end.
pub open spec fn line_safe(l: Seq<char>) -> bool {
    !l.contains('\n') && !(l.len() > 0 && l.last() == '\r')
}

proof fn lemma_digit_plain(d: nat)
    ensures
        !is_ws(digit_char(d)),
{
}

/// A day's text holds no white space.
proof fn lemma_date_text_plain(n: int)
    ensures
        date_text(n).len() > 0,
        forall|i: int| 0 <= i < date_text(n).len() ==> !is_ws(#[trigger] date_text(n)[i]),
{
    let y = civil_year(n);
    let yt = year_text(y);
    assert forall|d: nat| !is_ws(#[trigger] digit_char(d)) by {
        lemma_digit_plain(d);
    }
    assert forall|i: int| 0 <= i < yt.len() implies !is_ws(#[trigger] yt[i]) by {
        if 0 <= y <= 9999 {
        } else if y > 9999 {
            lemma_decimal(y as nat);
            if i > 0 {
                assert(yt[i] == decimal(y as nat)[i - 1]);
            }
        } else {
            let dd = decimal((-y) as nat);
            lemma_decimal((-y) as nat);
            let z = zero_pad(dd, 4);
            assert forall|k: int| 0 <= k < z.len() implies !is_ws(#[trigger] z[k]) by {
                if dd.len() < 4 {
                    let pad = Seq::new((4 - dd.len()) as nat, |q: int| '0');
                    assert(z == pad + dd);
                    if k >= pad.len() {
                        assert(z[k] == dd[k - pad.len()]);
                    } else {
                        assert(z[k] == '0');
                    }
                }
            }
            if i > 0 {
                assert(yt[i] == z[i - 1]);
            }
        }
    }
    let m = two_digits(civil_month(n) as nat);
    let dday = two_digits(civil_day(n) as nat);
    let t = date_text(n);
    assert(t == yt + seq!['-'] + m + seq!['-'] + dday);
    assert forall|i: int| 0 <= i < t.len() implies !is_ws(#[trigger] t[i]) by {
        let a = yt + seq!['-'];
        let b = a + m;
        let c = b + seq!['-'];
        assert(t == c + dday);
        if i >= c.len() {
            assert(t[i] == dday[i - c.len()]);
        } else {
            assert(t[i] == c[i]);
            if i >= b.len() {
            } else {
                assert(c[i] == b[i]);
                if i >= a.len() {
                    assert(b[i] == m[i - a.len()]);
                } else {
                    assert(b[i] == a[i]);
                    if i < yt.len() {
                        assert(a[i] == yt[i]);
                    }
                }
            }
        }
    }
}

/// `p` then `x` starts with `p`, and `x` follows it.
proof fn lemma_prefix_skip(p: Seq<char>, x: Seq<char>)
    ensures
        has_prefix(p + x, p),
        (p + x).skip(p.len() as int) == x,
{
    assert((p + x).take(p.len() as int) =~= p);
    assert((p + x).skip(p.len() as int) =~= x);
}

/// A line that differs from `q` at `i` does not start with `q`.
proof fn lemma_not_prefix(l: Seq<char>, q: Seq<char>, i: int)
    requires
        0 <= i < q.len(),
        i < l.len(),
        l[i] != q[i],
    ensures
        !has_prefix(l, q),
{
    if has_prefix(l, q) {
        assert(l.take(q.len() as int)[i] == l[i]);
    }
}

/// A literal key then a value without line breaks has none.
proof fn lemma_no_newline(p: Seq<char>, x: Seq<char>)
    requires
        forall|i: int| 0 <= i < p.len() ==> #[trigger] p[i] != '\n',
        !x.contains('\n'),
    ensures
        !(p + x).contains('\n'),
{
    if (p + x).contains('\n') {
        let i = choose|i: int| 0 <= i < (p + x).len() && (p + x)[i] == '\n';
        if i >= p.len() {
            assert(x[i - p.len()] == '\n');
        } else {
            assert(p[i] == '\n');
        }
    }
}

/// A carriage return at the end of a keyed line is the value's.
proof fn lemma_strip_cr_value(p: Seq<char>, x: Seq<char>)
    requires
        p.len() > 0,
        p.last() != '\r',
    ensures
        strip_cr(p + x) == p + strip_cr(x),
{
    if x.len() > 0 {
        assert((p + x).last() == x.last());
        if x.last() == '\r' {
            assert((p + x).drop_last() =~= p + x.drop_last());
        }
    } else {
        assert(p + x =~= p);
        assert((p + x).last() == p.last());
    }
}

/// The pieces of the state file: date, scope and attribute lines.
pub open spec fn state_lines(
    day: int,
    cc: Seq<char>,
    v: crate::config::IpVersion,
    s: Settings,
    t4: Seq<char>,
    t6: Seq<char>,
) -> Seq<Seq<char>> {
    seq![
        "date="@ + date_text(day),
        "country_code="@ + cc,
        "ip_version="@ + ip_version_text(v),
        "community_asn="@ + s.community_asn@,
        "nexthop_ipv4="@ + s.gobgp_nexthop_ipv4@,
        "nexthop_ipv6="@ + s.gobgp_nexthop_ipv6@,
        "community_nexthop_ipv4="@ + t4,
        "community_nexthop_ipv6="@ + t6,
    ]
}

proof fn lemma_join_push(ls: Seq<Seq<char>>, x: Seq<char>, sep: Seq<char>)
    requires
        ls.len() > 0,
    ensures
        join_with(ls.push(x), sep) == join_with(ls, sep) + sep + x,
{
    assert(ls.push(x).drop_last() == ls);
}

/// The state file is its lines, each ended by a newline.
proof fn lemma_state_text_lines(s: Settings, day: int, a: Seq<char>, t4: Seq<char>, t6: Seq<char>)
    requires
        a == "community_asn="@ + s.community_asn@ + seq!['\n'] + "nexthop_ipv4="@
            + s.gobgp_nexthop_ipv4@ + seq!['\n'] + "nexthop_ipv6="@ + s.gobgp_nexthop_ipv6@
            + seq!['\n'] + "community_nexthop_ipv4="@ + t4 + seq!['\n'] + "community_nexthop_ipv6="@
            + t6 + seq!['\n'],
    ensures
        "date="@ + date_text(day) + seq!['\n'] + scope_text(s.country_code@, s.ip_version) + a
            == join_with(state_lines(day, s.country_code@, s.ip_version, s, t4, t6), seq!['\n'])
            + seq!['\n'],
{
    let ls = state_lines(day, s.country_code@, s.ip_version, s, t4, t6);
    let nl = seq!['\n'];
    assert(ls.take(1) == seq![ls[0]]);
    assert(join_with(ls.take(1), nl) == ls[0]);
    assert(ls.take(8) == ls);
    assert(ls.take(2) == ls.take(1).push(ls[1]));
    lemma_join_push(ls.take(1), ls[1], nl);
    assert(ls.take(3) == ls.take(2).push(ls[2]));
    lemma_join_push(ls.take(2), ls[2], nl);
    assert(ls.take(4) == ls.take(3).push(ls[3]));
    lemma_join_push(ls.take(3), ls[3], nl);
    assert(ls.take(5) == ls.take(4).push(ls[4]));
    lemma_join_push(ls.take(4), ls[4], nl);
    assert(ls.take(6) == ls.take(5).push(ls[5]));
    lemma_join_push(ls.take(5), ls[5], nl);
    assert(ls.take(7) == ls.take(6).push(ls[6]));
    lemma_join_push(ls.take(6), ls[6], nl);
    assert(ls.take(8) == ls.take(7).push(ls[7]));
    lemma_join_push(ls.take(7), ls[7], nl);
    assert(join_with(ls, nl) =~= ls[0] + nl + ls[1] + nl + ls[2] + nl + ls[3] + nl + ls[4] + nl + ls[5]
        + nl + ls[6] + nl + ls[7]);
    assert("date="@ + date_text(day) + nl + scope_text(s.country_code@, s.ip_version) + a
        =~= join_with(ls, nl) + nl);
}

/// No character of `x` is a line break.
proof fn lemma_no_newline_chars(x: Seq<char>)
    requires
        forall|i: int| 0 <= i < x.len() ==> #[trigger] x[i] != '\n',
    ensures
        !x.contains('\n'),
{
    if x.contains('\n') {
        let i = choose|i: int| 0 <= i < x.len() && x[i] == '\n';
        assert(x[i] != '\n');
    }
}

/// Text that starts with `q` still does with more after it.
proof fn lemma_prefix_extend(p: Seq<char>, q: Seq<char>, x: Seq<char>)
    requires
        has_prefix(p, q),
    ensures
        has_prefix(p + x, q),
{
    assert((p + x).take(q.len() as int) =~= p.take(q.len() as int));
}

/// The lines `str::lines` finds in the state file: those written, the
/// country code's without a carriage return at its end.
#[verifier::spinoff_prover]
proof fn lemma_state_file_lines(s: Settings, day: int, a: Seq<char>, t4: Seq<char>, t6: Seq<char>)
    requires
        a == "community_asn="@ + s.community_asn@ + seq!['\n'] + "nexthop_ipv4="@
            + s.gobgp_nexthop_ipv4@ + seq!['\n'] + "nexthop_ipv6="@ + s.gobgp_nexthop_ipv6@
            + seq!['\n'] + "community_nexthop_ipv4="@ + t4 + seq!['\n'] + "community_nexthop_ipv6="@
            + t6 + seq!['\n'],
        !s.country_code@.contains('\n'),
        line_safe(s.community_asn@),
        line_safe(s.gobgp_nexthop_ipv4@),
        line_safe(s.gobgp_nexthop_ipv6@),
        line_safe(t4),
        line_safe(t6),
    ensures
        lines("date="@ + date_text(day) + seq!['\n'] + scope_text(s.country_code@, s.ip_version) + a)
            == state_lines(day, strip_cr(s.country_code@), s.ip_version, s, t4, t6),
{
    reveal_strlit("date=");
    reveal_strlit("country_code=");
    reveal_strlit("ip_version=");
    reveal_strlit("community_asn=");
    reveal_strlit("nexthop_ipv4=");
    reveal_strlit("nexthop_ipv6=");
    reveal_strlit("community_nexthop_ipv4=");
    reveal_strlit("community_nexthop_ipv6=");
    lemma_state_text_lines(s, day, a, t4, t6);
    let cc = s.country_code@;
    let d = date_text(day);
    let v = ip_version_text(s.ip_version);
    let ls = state_lines(day, cc, s.ip_version, s, t4, t6);
    lemma_date_text_plain(day);
    assert forall|i: int| 0 <= i < d.len() implies #[trigger] d[i] != '\n' by {
        assert(!is_ws(d[i]));
    }
    lemma_no_newline_chars(d);
    lemma_no_newline_chars(v);
    lemma_no_newline("date="@, d);
    lemma_no_newline("country_code="@, cc);
    lemma_no_newline("ip_version="@, v);
    lemma_no_newline("community_asn="@, s.community_asn@);
    lemma_no_newline("nexthop_ipv4="@, s.gobgp_nexthop_ipv4@);
    lemma_no_newline("nexthop_ipv6="@, s.gobgp_nexthop_ipv6@);
    lemma_no_newline("community_nexthop_ipv4="@, t4);
    lemma_no_newline("community_nexthop_ipv6="@, t6);
    assert forall|i: int| 0 <= i < ls.len() implies !(#[trigger] ls[i]).contains('\n') by {}
    lemma_lines_terminated(ls);
    lemma_strip_cr_value("date="@, d);
    lemma_strip_cr_value("country_code="@, cc);
    lemma_strip_cr_value("ip_version="@, v);
    lemma_strip_cr_value("community_asn="@, s.community_asn@);
    lemma_strip_cr_value("nexthop_ipv4="@, s.gobgp_nexthop_ipv4@);
    lemma_strip_cr_value("nexthop_ipv6="@, s.gobgp_nexthop_ipv6@);
    lemma_strip_cr_value("community_nexthop_ipv4="@, t4);
    lemma_strip_cr_value("community_nexthop_ipv6="@, t6);
    assert(!is_ws(d.last()));
    assert(strip_cr(d) == d);
    assert(strip_cr(v) == v);
    assert(ls.map_values(|x: Seq<char>| strip_cr(x)) =~= state_lines(day, strip_cr(cc), s.ip_version, s, t4, t6));
}

/// Reading a line that sets the date.
proof fn lemma_scan_date(d: Seq<char>)
    ensures
        scan_state(seq!["date="@ + d]) == (
            civil_parse_ymd(trim(d)),
            None::<Seq<char>>,
            None::<crate::config::IpVersion>,
            Seq::<char>::empty(),
        ),
{
    reveal_strlit("date=");
    lemma_prefix_skip("date="@, d);
    let ls = seq!["date="@ + d];
    assert(scan_state(Seq::<Seq<char>>::empty()) == (
        None::<int>,
        None::<Seq<char>>,
        None::<crate::config::IpVersion>,
        Seq::<char>::empty(),
    ));
    assert(ls.drop_last() =~= Seq::<Seq<char>>::empty());
    assert(ls.last() == "date="@ + d);
}

/// Reading a line that sets the country code.
proof fn lemma_scan_country(ls: Seq<Seq<char>>, cc: Seq<char>)
    ensures
        scan_state(ls.push("country_code="@ + cc)) == (
            scan_state(ls).0,
            Some(trim(cc)),
            scan_state(ls).2,
            scan_state(ls).3,
        ),
{
    reveal_strlit("date=");
    reveal_strlit("country_code=");
    let l = "country_code="@ + cc;
    lemma_not_prefix(l, "date="@, 0);
    lemma_prefix_skip("country_code="@, cc);
    assert(ls.push(l).drop_last() == ls);
}

/// Reading a line that sets the IP version.
proof fn lemma_scan_version(ls: Seq<Seq<char>>, v: Seq<char>)
    ensures
        scan_state(ls.push("ip_version="@ + v)) == (
            scan_state(ls).0,
            scan_state(ls).1,
            Some(ip_version_of(trim(v))),
            scan_state(ls).3,
        ),
{
    reveal_strlit("date=");
    reveal_strlit("country_code=");
    reveal_strlit("ip_version=");
    let l = "ip_version="@ + v;
    lemma_not_prefix(l, "date="@, 0);
    lemma_not_prefix(l, "country_code="@, 0);
    lemma_prefix_skip("ip_version="@, v);
    assert(ls.push(l).drop_last() == ls);
}

/// Reading an attribute line keeps it.
proof fn lemma_scan_attr(ls: Seq<Seq<char>>, l: Seq<char>)
    requires
        l.len() > 0,
        !has_prefix(l, "date="@),
        !has_prefix(l, "country_code="@),
        !has_prefix(l, "ip_version="@),
        has_prefix(l, "community_asn="@) || has_prefix(l, "nexthop_"@) || has_prefix(
            l,
            "community_nexthop_"@,
        ),
    ensures
        scan_state(ls.push(l)) == (
            scan_state(ls).0,
            scan_state(ls).1,
            scan_state(ls).2,
            scan_state(ls).3 + l + seq!['\n'],
        ),
{
    assert(ls.push(l).drop_last() == ls);
}

/// The attribute lines of the state file are read as such.
proof fn lemma_attr_lines_kept(x: Seq<char>)
    ensures
        ({
            let l = "community_asn="@ + x;
            l.len() > 0 && !has_prefix(l, "date="@) && !has_prefix(l, "country_code="@)
                && !has_prefix(l, "ip_version="@) && has_prefix(l, "community_asn="@)
        }),
        ({
            let l = "nexthop_ipv4="@ + x;
            l.len() > 0 && !has_prefix(l, "date="@) && !has_prefix(l, "country_code="@)
                && !has_prefix(l, "ip_version="@) && has_prefix(l, "nexthop_"@)
        }),
        ({
            let l = "nexthop_ipv6="@ + x;
            l.len() > 0 && !has_prefix(l, "date="@) && !has_prefix(l, "country_code="@)
                && !has_prefix(l, "ip_version="@) && has_prefix(l, "nexthop_"@)
        }),
        ({
            let l = "community_nexthop_ipv4="@ + x;
            l.len() > 0 && !has_prefix(l, "date="@) && !has_prefix(l, "country_code="@)
                && !has_prefix(l, "ip_version="@) && has_prefix(l, "community_nexthop_"@)
        }),
        ({
            let l = "community_nexthop_ipv6="@ + x;
            l.len() > 0 && !has_prefix(l, "date="@) && !has_prefix(l, "country_code="@)
                && !has_prefix(l, "ip_version="@) && has_prefix(l, "community_nexthop_"@)
        }),
{
    reveal_strlit("date=");
    reveal_strlit("country_code=");
    reveal_strlit("ip_version=");
    reveal_strlit("community_asn=");
    reveal_strlit("nexthop_ipv4=");
    reveal_strlit("nexthop_ipv6=");
    reveal_strlit("community_nexthop_ipv4=");
    reveal_strlit("community_nexthop_ipv6=");
    reveal_strlit("nexthop_");
    reveal_strlit("community_nexthop_");
    let l = "community_asn="@ + x;
    lemma_not_prefix(l, "date="@, 0);
    lemma_not_prefix(l, "country_code="@, 2);
    lemma_not_prefix(l, "ip_version="@, 0);
    lemma_prefix_skip("community_asn="@, x);
    let l = "nexthop_ipv4="@ + x;
    lemma_not_prefix(l, "date="@, 0);
    lemma_not_prefix(l, "country_code="@, 0);
    lemma_not_prefix(l, "ip_version="@, 0);
    assert("nexthop_ipv4="@.take(8) =~= "nexthop_"@);
    lemma_prefix_extend("nexthop_ipv4="@, "nexthop_"@, x);
    let l = "nexthop_ipv6="@ + x;
    lemma_not_prefix(l, "date="@, 0);
    lemma_not_prefix(l, "country_code="@, 0);
    lemma_not_prefix(l, "ip_version="@, 0);
    assert("nexthop_ipv6="@.take(8) =~= "nexthop_"@);
    lemma_prefix_extend("nexthop_ipv6="@, "nexthop_"@, x);
    let l = "community_nexthop_ipv4="@ + x;
    lemma_not_prefix(l, "date="@, 0);
    lemma_not_prefix(l, "country_code="@, 2);
    lemma_not_prefix(l, "ip_version="@, 0);
    assert("community_nexthop_ipv4="@.take(18) =~= "community_nexthop_"@);
    lemma_prefix_extend("community_nexthop_ipv4="@, "community_nexthop_"@, x);
    let l = "community_nexthop_ipv6="@ + x;
    lemma_not_prefix(l, "date="@, 0);
    lemma_not_prefix(l, "country_code="@, 2);
    lemma_not_prefix(l, "ip_version="@, 0);
    assert("community_nexthop_ipv6="@.take(18) =~= "community_nexthop_"@);
    lemma_prefix_extend("community_nexthop_ipv6="@, "community_nexthop_"@, x);
}

/// The first three lines of the state file: date, country code, version.
proof fn lemma_scan_head(
    day: int,
    cc: Seq<char>,
    v: crate::config::IpVersion,
    s: Settings,
    t4: Seq<char>,
    t6: Seq<char>,
)
    ensures
        scan_state(state_lines(day, cc, v, s, t4, t6).take(3)) == (
            civil_parse_ymd(date_text(day)),
            Some(trim(cc)),
            Some(ip_version_of(ip_version_text(v))),
            Seq::<char>::empty(),
        ),
{
    let ls = state_lines(day, cc, v, s, t4, t6);
    let d = date_text(day);
    let vt = ip_version_text(v);
    lemma_date_text_plain(day);
    lemma_trim_noop(d);
    lemma_trim_noop(vt);
    lemma_scan_date(d);
    assert(ls.take(1) =~= seq!["date="@ + d]);
    lemma_scan_country(ls.take(1), cc);
    assert(ls.take(2) =~= ls.take(1).push("country_code="@ + cc));
    lemma_scan_version(ls.take(2), vt);
    assert(ls.take(3) =~= ls.take(2).push("ip_version="@ + vt));
}

/// One more attribute line of the state file read.
proof fn lemma_scan_attr_step(ls: Seq<Seq<char>>, k: int, key: Seq<char>, x: Seq<char>)
    requires
        3 <= k < ls.len(),
        ls[k] == key + x,
        key == "community_asn="@ || key == "nexthop_ipv4="@ || key == "nexthop_ipv6="@ || key
            == "community_nexthop_ipv4="@ || key == "community_nexthop_ipv6="@,
    ensures
        scan_state(ls.take(k + 1)) == (
            scan_state(ls.take(k)).0,
            scan_state(ls.take(k)).1,
            scan_state(ls.take(k)).2,
            scan_state(ls.take(k)).3 + ls[k] + seq!['\n'],
        ),
{
    lemma_attr_lines_kept(x);
    lemma_scan_attr(ls.take(k), ls[k]);
    assert(ls.take(k + 1) =~= ls.take(k).push(ls[k]));
}

/// What a scan of the state file's lines finds.
#[verifier::rlimit(30)]
proof fn lemma_scan_state_lines(
    day: int,
    cc: Seq<char>,
    v: crate::config::IpVersion,
    s: Settings,
    t4: Seq<char>,
    t6: Seq<char>,
)
    ensures
        scan_state(state_lines(day, cc, v, s, t4, t6)) == (
            civil_parse_ymd(date_text(day)),
            Some(trim(cc)),
            Some(ip_version_of(ip_version_text(v))),
            "community_asn="@ + s.community_asn@ + seq!['\n'] + "nexthop_ipv4="@
                + s.gobgp_nexthop_ipv4@ + seq!['\n'] + "nexthop_ipv6="@ + s.gobgp_nexthop_ipv6@
                + seq!['\n'] + "community_nexthop_ipv4="@ + t4 + seq!['\n'] + "community_nexthop_ipv6="@
                + t6 + seq!['\n'],
        ),
{
    let ls = state_lines(day, cc, v, s, t4, t6);
    lemma_scan_head(day, cc, v, s, t4, t6);
    let h = scan_state(ls.take(3));
    lemma_scan_attr_step(ls, 3, "community_asn="@, s.community_asn@);
    let a4 = h.3 + ls[3] + seq!['\n'];
    assert(scan_state(ls.take(4)) == (h.0, h.1, h.2, a4));
    lemma_scan_attr_step(ls, 4, "nexthop_ipv4="@, s.gobgp_nexthop_ipv4@);
    let a5 = a4 + ls[4] + seq!['\n'];
    assert(scan_state(ls.take(5)) == (h.0, h.1, h.2, a5));
    lemma_scan_attr_step(ls, 5, "nexthop_ipv6="@, s.gobgp_nexthop_ipv6@);
    let a6 = a5 + ls[5] + seq!['\n'];
    assert(scan_state(ls.take(6)) == (h.0, h.1, h.2, a6));
    lemma_scan_attr_step(ls, 6, "community_nexthop_ipv4="@, t4);
    let a7 = a6 + ls[6] + seq!['\n'];
    assert(scan_state(ls.take(7)) == (h.0, h.1, h.2, a7));
    lemma_scan_attr_step(ls, 7, "community_nexthop_ipv6="@, t6);
    let a8 = a7 + ls[7] + seq!['\n'];
    assert(scan_state(ls.take(8)) == (h.0, h.1, h.2, a8));
    assert(ls.take(8) == ls);
    lemma_attr_concat(s, t4, t6, ls[3], ls[4], ls[5], ls[6], ls[7]);
}

/// The attribute lines, each ended by a newline, make the attribute text.
proof fn lemma_attr_concat(
    s: Settings,
    t4: Seq<char>,
    t6: Seq<char>,
    l3: Seq<char>,
    l4: Seq<char>,
    l5: Seq<char>,
    l6: Seq<char>,
    l7: Seq<char>,
)
    requires
        l3 == "community_asn="@ + s.community_asn@,
        l4 == "nexthop_ipv4="@ + s.gobgp_nexthop_ipv4@,
        l5 == "nexthop_ipv6="@ + s.gobgp_nexthop_ipv6@,
        l6 == "community_nexthop_ipv4="@ + t4,
        l7 == "community_nexthop_ipv6="@ + t6,
    ensures
        Seq::<char>::empty() + l3 + seq!['\n'] + l4 + seq!['\n'] + l5 + seq!['\n'] + l6 + seq!['\n'] + l7
            + seq!['\n'] == "community_asn="@ + s.community_asn@ + seq!['\n'] + "nexthop_ipv4="@
            + s.gobgp_nexthop_ipv4@ + seq!['\n'] + "nexthop_ipv6="@ + s.gobgp_nexthop_ipv6@
            + seq!['\n'] + "community_nexthop_ipv4="@ + t4 + seq!['\n'] + "community_nexthop_ipv6="@
            + t6 + seq!['\n'],
{
    assert(Seq::<char>::empty() + l3 + seq!['\n'] + l4 + seq!['\n'] + l5 + seq!['\n'] + l6 + seq!['\n']
        + l7 + seq!['\n'] =~= "community_asn="@ + s.community_asn@ + seq!['\n'] + "nexthop_ipv4="@
        + s.gobgp_nexthop_ipv4@ + seq!['\n'] + "nexthop_ipv6="@ + s.gobgp_nexthop_ipv6@ + seq!['\n']
        + "community_nexthop_ipv4="@ + t4 + seq!['\n'] + "community_nexthop_ipv6="@ + t6 + seq!['\n']);
}

/// The state file reads back as it was written: the date as its written
/// text reads, the IP version itself, the country code trimmed (and
/// without a carriage return at its end), and exactly the attribute lines,
/// when no written value holds a line break and no attribute value ends in
/// a carriage return.
pub proof fn law_state_read_back(s: Settings, day: int, a: Seq<char>)
    requires
        attr_text_ok(s, a),
        !s.country_code@.contains('\n'),
        line_safe(s.community_asn@),
        line_safe(s.gobgp_nexthop_ipv4@),
        line_safe(s.gobgp_nexthop_ipv6@),
        forall|t: Seq<char>| #[trigger] sorted_map_text(s.community_nexthop_ipv4@, t) ==> line_safe(t),
        forall|t: Seq<char>| #[trigger] sorted_map_text(s.community_nexthop_ipv6@, t) ==> line_safe(t),
    ensures
        scan_state(
            lines("date="@ + date_text(day) + seq!['\n'] + scope_text(s.country_code@, s.ip_version) + a),
        ) == (
            civil_parse_ymd(date_text(day)),
            Some(trim(strip_cr(s.country_code@))),
            Some(s.ip_version),
            a,
        ),
{
    let (t4, t6): (Seq<char>, Seq<char>) = choose|t4: Seq<char>, t6: Seq<char>|
        sorted_map_text(s.community_nexthop_ipv4@, t4) && sorted_map_text(s.community_nexthop_ipv6@, t6)
            && a == "community_asn="@ + s.community_asn@ + seq!['\n'] + "nexthop_ipv4="@
            + s.gobgp_nexthop_ipv4@ + seq!['\n'] + "nexthop_ipv6="@ + s.gobgp_nexthop_ipv6@
            + seq!['\n'] + "community_nexthop_ipv4="@ + t4 + seq!['\n'] + "community_nexthop_ipv6="@
            + t6 + seq!['\n'];
    assert(line_safe(t4) && line_safe(t6));
    lemma_state_file_lines(s, day, a, t4, t6);
    lemma_scan_state_lines(day, strip_cr(s.country_code@), s.ip_version, s, t4, t6);
    law_ip_version_round_trip(s.ip_version);
}

// ---------------------------------------------------------------------------
// DNS snapshots
// ---------------------------------------------------------------------------

/// A record the DNS snapshot file can hold as it is: a valid prefix without
/// white space that does not start with `#` and whose family is the one its
/// text shows; a domain that is not empty, in lower case, without white
/// space or a trailing dot.
pub open spec fn dns_record_safe(k: RecordKey) -> bool {
    &&& valid_cidr(k.2)
    &&& no_ws(k.2)
    &&& k.2[0] != '#'
    &&& k.1 == is_v6_prefix(k.2)
    &&& k.0.len() > 0
    &&& no_ws(k.0)
    &&& k.0.last() != '.'
    &&& lower_text(k.0) == k.0
}

/// The time field a saved line gives back: the stamp, none when it is empty.
pub open spec fn stamp_field(st: Seq<char>) -> Option<Seq<char>> {
    if st.len() > 0 {
        Some(st)
    } else {
        None
    }
}

/// Reading on through text without a separator extends the piece in
/// progress.
pub proof fn lemma_split_state_plain(s: Seq<char>, x: Seq<char>, sep: Sep)
    requires
        forall|i: int| 0 <= i < x.len() ==> !is_sep(sep, #[trigger] x[i]),
    ensures
        split_state(s + x, sep) == (split_state(s, sep).0, split_state(s, sep).1 + x),
    decreases x.len(),
{
    if x.len() == 0 {
        assert(s + x == s);
        assert(split_state(s, sep).1 + x == split_state(s, sep).1);
    } else {
        let y = x.drop_last();
        lemma_split_state_plain(s, y, sep);
        assert((s + x).drop_last() == s + y);
        assert((s + x).last() == x.last());
        assert(!is_sep(sep, x[x.len() - 1]));
        assert(split_state(s, sep).1 + y + seq![x.last()] =~= split_state(s, sep).1 + x);
    }
}

/// A separator ends the piece in progress.
proof fn lemma_split_state_sep(s: Seq<char>, c: char, sep: Sep)
    requires
        is_sep(sep, c),
    ensures
        split_state(s + seq![c], sep) == (split_state(s, sep).0.push(split_state(s, sep).1), Seq::<char>::empty()),
{
    assert((s + seq![c]).drop_last() == s);
    assert((s + seq![c]).last() == c);
}

/// The words of `a b c` for words without white space.
proof fn lemma_three_words(a: Seq<char>, b: Seq<char>, c: Seq<char>)
    requires
        no_ws(a),
        no_ws(b),
        no_ws(c),
    ensures
        split_state(a + seq![' '] + b + seq![' '] + c, Sep::Ws) == (seq![a, b], c),
{
    let e = Seq::<char>::empty();
    lemma_split_state_plain(e, a, Sep::Ws);
    assert(e + a == a);
    assert(split_state(e, Sep::Ws) == (Seq::<Seq<char>>::empty(), e));
    assert(e + a =~= a);
    lemma_split_state_sep(a, ' ', Sep::Ws);
    assert(Seq::<Seq<char>>::empty().push(a) =~= seq![a]);
    lemma_split_state_plain(a + seq![' '], b, Sep::Ws);
    assert(e + b =~= b);
    lemma_split_state_sep(a + seq![' '] + b, ' ', Sep::Ws);
    assert(seq![a].push(b) =~= seq![a, b]);
    lemma_split_state_plain(a + seq![' '] + b + seq![' '], c, Sep::Ws);
    assert(e + c =~= c);
}

/// A saved line reads back as its prefix, its domain and its stamp.
proof fn lemma_save_line_read(k: RecordKey, st: Seq<char>)
    requires
        dns_record_safe(k),
        no_ws(st),
    ensures
        dns_line(save_line(k, st)) == Some((k.2, k.0, stamp_field(st))),
        save_line(k, st).len() > 0,
        !save_line(k, st).contains('\n'),
        save_line(k, st).last() != '\r',
{
    reveal_strlit("65535:65535");
    let c = DNS_COMMUNITY@;
    assert(c == "65535:65535"@);
    assert(no_ws(c));
    let (d, p) = (k.0, k.2);
    assert(p.len() > 0) by {
        if p.len() == 0 {
            assert(split_once(p, '/') is None) by {
                lemma_char_index(p, '/');
            }
        }
    }
    let a4 = p + seq![' '] + c + seq![' '] + d;
    let l = save_line(k, st);
    assert(l == a4 + seq![' '] + st);
    lemma_three_words(p, c, d);
    assert(a4[0] == p[0]);
    assert(a4.last() == d.last());
    assert(!is_ws(p[0]));
    assert(!is_ws(d[d.len() - 1]));
    lemma_trim_noop(a4);
    lemma_trim_noop(p);
    assert(trim_end_dots(d) == d);
    let w3 = seq![p, c, d];
    if st.len() == 0 {
        assert(l == a4 + seq![' ']);
        assert(trim_start(l) == l);
        assert(l.drop_last() == a4);
        assert(trim_end(l) == trim_end(a4));
        assert(trim(l) == a4);
        assert(split(a4, Sep::Ws) == w3);
        reveal_with_fuel(Seq::<_>::filter, 4);
        assert(words(a4) =~= w3);
    } else {
        lemma_split_state_sep(a4, ' ', Sep::Ws);
        lemma_split_state_plain(a4 + seq![' '], st, Sep::Ws);
        assert(Seq::<char>::empty() + st =~= st);
        assert(split(l, Sep::Ws) =~= seq![p, c, d, st]);
        assert(l[0] == p[0]);
        assert(l.last() == st.last());
        assert(!is_ws(st[st.len() - 1]));
        lemma_trim_noop(l);
        reveal_with_fuel(Seq::<_>::filter, 5);
        assert(words(l) =~= seq![p, c, d, st]);
    }
    assert(!l.contains('\n')) by {
        if l.contains('\n') {
            let q = choose|q: int| 0 <= q < l.len() && l[q] == '\n';
            assert(is_ws(l[q]));
            if q < p.len() {
                assert(l[q] == p[q]);
            } else if p.len() < q < p.len() + 1 + c.len() {
                assert(l[q] == c[q - p.len() - 1]);
            } else if p.len() + 1 + c.len() < q < p.len() + 2 + c.len() + d.len() {
                assert(l[q] == d[q - p.len() - 2 - c.len()]);
            } else if q > p.len() + 2 + c.len() + d.len() {
                assert(l[q] == st[q - p.len() - 3 - c.len() - d.len()]);
            }
        }
    }
    if st.len() > 0 {
        assert(!is_ws(st[st.len() - 1]));
    }
}

/// The saved lines read back as their prefixes, domains and stamps.
proof fn lemma_dns_lines_saved(ks: Seq<RecordKey>, stamps: Seq<Seq<char>>)
    requires
        ks.len() == stamps.len(),
        forall|i: int| 0 <= i < ks.len() ==> dns_record_safe(#[trigger] ks[i]),
        forall|i: int| 0 <= i < stamps.len() ==> no_ws(#[trigger] stamps[i]),
    ensures
        dns_lines(save_lines(ks, stamps)) == Seq::new(
            ks.len(),
            |i: int| (ks[i].2, ks[i].0, stamp_field(stamps[i])),
        ),
    decreases ks.len(),
{
    let ls = save_lines(ks, stamps);
    if ks.len() == 0 {
        assert(ls.len() == 0);
        assert(dns_lines(ls) =~= Seq::new(ks.len(), |i: int| (ks[i].2, ks[i].0, stamp_field(stamps[i]))));
    } else {
        let n = ks.len() - 1;
        lemma_dns_lines_saved(ks.drop_last(), stamps.drop_last());
        assert(ls.drop_last() =~= save_lines(ks.drop_last(), stamps.drop_last()));
        assert(dns_record_safe(ks[n]));
        assert(no_ws(stamps[n]));
        lemma_save_line_read(ks[n], stamps[n]);
        assert(ls.last() == save_line(ks[n], stamps[n]));
        assert(dns_lines(ls) =~= Seq::new(ks.len(), |i: int| (ks[i].2, ks[i].0, stamp_field(stamps[i]))));
    }
}

/// The DNS snapshot file reads back with the records it was written from:
/// each saved line gives back its prefix, its domain and its last-seen
/// text, and whatever times are read for those lines, the records (domain,
/// family, prefix) are exactly the ones written, when each record is
/// `dns_record_safe` and no stamp holds white space.
pub proof fn law_dns_snapshot_read_back(
    m: Map<RecordKey, int>,
    ks: Seq<RecordKey>,
    stamps: Seq<Seq<char>>,
    seen: Seq<int>,
)
    requires
        ks.len() == stamps.len(),
        ks.to_set() == m.dom(),
        forall|k: RecordKey| #[trigger] m.dom().contains(k) ==> dns_record_safe(k),
        forall|i: int| 0 <= i < stamps.len() ==> no_ws(#[trigger] stamps[i]),
        seen.len() == ks.len(),
    ensures
        dns_lines(lines(join_with(save_lines(ks, stamps), seq!['\n']))) == Seq::new(
            ks.len(),
            |i: int| (ks[i].2, ks[i].0, stamp_field(stamps[i])),
        ),
        snapshot_of_lines(dns_lines(lines(join_with(save_lines(ks, stamps), seq!['\n']))), seen).dom()
            == m.dom(),
{
    assert forall|i: int| 0 <= i < ks.len() implies dns_record_safe(#[trigger] ks[i]) by {
        assert(ks.to_set().contains(ks[i]));
    }
    let ls = save_lines(ks, stamps);
    assert forall|i: int| 0 <= i < ls.len() implies (#[trigger] ls[i]).len() > 0 && !ls[i].contains('\n')
        && ls[i].last() != '\r' by {
        lemma_save_line_read(ks[i], stamps[i]);
    }
    lemma_lines_join(ls);
    lemma_dns_lines_saved(ks, stamps);
    let es = Seq::new(ks.len(), |i: int| (ks[i].2, ks[i].0, stamp_field(stamps[i])));
    let ps = Seq::new(es.len(), |i: int| ((es[i].1, is_v6_prefix(es[i].0), es[i].0), seen[i]));
    assert forall|i: int| 0 <= i < ps.len() implies #[trigger] ps[i].0 == ks[i] by {
        assert(dns_record_safe(ks[i]));
    }
    assert(snapshot_of_lines(es, seen) == to_assoc(ps));
    assert forall|k: RecordKey| to_assoc(ps).dom().contains(k) <==> m.dom().contains(k) by {
        lemma_assoc_dom(ps, k);
        if m.dom().contains(k) {
            assert(ks.to_set().contains(k));
            let i = choose|i: int| 0 <= i < ks.len() && ks[i] == k;
            assert(ps[i].0 == k);
        }
        if to_assoc(ps).dom().contains(k) {
            let i = choose|i: int| 0 <= i < ps.len() && ps[i].0 == k;
            assert(ks[i] == k);
            assert(ks.to_set().contains(k));
        }
    }
    assert(to_assoc(ps).dom() =~= m.dom());
}

// ---------------------------------------------------------------------------
// CIDR prefixes
// ---------------------------------------------------------------------------

/// A character other than the separator that occurs in `s` occurs in one
/// of its pieces.
proof fn lemma_split_covers(s: Seq<char>, c: char, x: char)
    requires
        s.contains(x),
        x != c,
    ensures
        exists|i: int|
            0 <= i < split(s, Sep::Char(c)).len() && (#[trigger] split(s, Sep::Char(c))[i]).contains(x),
    decreases s.len(),
{
    let sep = Sep::Char(c);
    let init = s.drop_last();
    let (d, cur) = split_state(init, sep);
    assert(split(init, sep) == d.push(cur));
    let q = choose|q: int| 0 <= q < s.len() && s[q] == x;
    if q < s.len() - 1 {
        assert(init[q] == x);
        lemma_split_covers(init, c, x);
        let i = choose|i: int| 0 <= i < split(init, sep).len() && (#[trigger] split(init, sep)[i]).contains(x);
        let j = choose|j: int| 0 <= j < split(init, sep)[i].len() && split(init, sep)[i][j] == x;
        if s.last() == c {
            assert(split(s, sep) == d.push(cur).push(Seq::<char>::empty()));
            assert(split(s, sep)[i] == split(init, sep)[i]);
        } else {
            assert(split(s, sep) == d.push(cur.push(s.last())));
            if i < d.len() {
                assert(split(s, sep)[i] == d[i]);
            } else {
                assert(split(s, sep)[i] == cur.push(s.last()));
                assert(split(s, sep)[i][j] == x);
            }
        }
        assert(split(s, sep)[i].contains(x));
    } else {
        assert(s.last() == x);
        assert(split(s, sep) == d.push(cur.push(x)));
        let k = d.len() as int;
        assert(split(s, sep)[k] == cur.push(x));
        assert(split(s, sep)[k][cur.len() as int] == x);
    }
}

/// Text whose pieces do not hold `x` does not hold it, when `x` is not the
/// separator.
proof fn lemma_split_lacks(s: Seq<char>, c: char, x: char)
    requires
        x != c,
        forall|i: int|
            0 <= i < split(s, Sep::Char(c)).len() ==> !(#[trigger] split(s, Sep::Char(c))[i]).contains(x),
    ensures
        !s.contains(x),
{
    if s.contains(x) {
        lemma_split_covers(s, c, x);
    }
}

/// Text without the separator is one piece.
pub proof fn lemma_split_single(s: Seq<char>, c: char)
    requires
        !s.contains(c),
    ensures
        split(s, Sep::Char(c)).len() == 1,
{
    let e = Seq::<char>::empty();
    assert forall|i: int| 0 <= i < s.len() implies !is_sep(Sep::Char(c), #[trigger] s[i]) by {
        if s[i] == c {
            assert(s.contains(c));
        }
    }
    lemma_split_state_plain(e, s, Sep::Char(c));
    assert(e + s =~= s);
}

/// Dotted-quad text holds only digits and dots.
proof fn lemma_ipv4_lacks(s: Seq<char>, x: char)
    requires
        ipv4_text(s),
        !is_digit(x),
        x != '.',
    ensures
        !s.contains(x),
{
    let p = split(s, Sep::Char('.'));
    assert forall|i: int| 0 <= i < p.len() implies !(#[trigger] p[i]).contains(x) by {
        assert(dec_octet(p[i]));
        if p[i].contains(x) {
            let j = choose|j: int| 0 <= j < p[i].len() && p[i][j] == x;
            assert(is_digit(p[i][j]));
        }
    }
    lemma_split_lacks(s, '.', x);
}

/// A part of IPv6 text holds only hexadecimal digits, colons and dots.
proof fn lemma_groups_lack(t: Seq<char>, allow_v4: bool, x: char)
    requires
        group_units(t, allow_v4) >= 0,
        !is_hex(x),
        x != ':',
        x != '.',
    ensures
        !t.contains(x),
{
    if t.len() > 0 {
        let q = split(t, Sep::Char(':'));
        assert forall|i: int| 0 <= i < q.len() implies !(#[trigger] q[i]).contains(x) by {
            if all_groups(q) || i < q.len() - 1 {
                if !all_groups(q) {
                    assert(q.drop_last()[i] == q[i]);
                }
                assert(hex_group(q[i]));
                if q[i].contains(x) {
                    let j = choose|j: int| 0 <= j < q[i].len() && q[i][j] == x;
                    assert(is_hex(q[i][j]));
                }
            } else {
                lemma_ipv4_lacks(q.last(), x);
            }
        }
        lemma_split_lacks(t, ':', x);
    }
}

/// Where `double_colon` finds `::`.
proof fn lemma_double_colon(s: Seq<char>)
    ensures
        double_colon(s) >= -1,
        double_colon(s) >= 0 ==> double_colon(s) + 1 < s.len() && s[double_colon(s)] == ':' && s[double_colon(s) + 1] == ':',
    decreases s.len(),
{
    if s.len() >= 2 && !(s[0] == ':' && s[1] == ':') {
        lemma_double_colon(s.drop_first());
    }
}

/// IPv6 text holds only hexadecimal digits, colons and dots, and holds a
/// colon.
#[verifier::spinoff_prover]
#[verifier::rlimit(30)]
proof fn lemma_ipv6_chars(s: Seq<char>, x: char)
    requires
        ipv6_text(s),
        !is_hex(x),
        x != ':',
        x != '.',
    ensures
        !s.contains(x),
        s.contains(':'),
{
    let d = double_colon(s);
    lemma_double_colon(s);
    if d < 0 {
        let p = split(s, Sep::Char(':'));
        assert forall|i: int| 0 <= i < p.len() implies !(#[trigger] p[i]).contains(x) by {
            if p.len() == 8 || i < 6 {
                if p.len() != 8 {
                    assert(p.take(6)[i] == p[i]);
                }
                assert(hex_group(p[i]));
                if p[i].contains(x) {
                    let j = choose|j: int| 0 <= j < p[i].len() && p[i][j] == x;
                    assert(is_hex(p[i][j]));
                }
            } else {
                lemma_ipv4_lacks(p[6], x);
            }
        }
        lemma_split_lacks(s, ':', x);
        if !s.contains(':') {
            lemma_split_single(s, ':');
        }
    } else {
        assert(s[d] == ':');
        lemma_groups_lack(s.take(d), false, x);
        lemma_groups_lack(s.skip(d + 2), true, x);
        if s.contains(x) {
            let q = choose|q: int| 0 <= q < s.len() && s[q] == x;
            if q < d {
                assert(s.take(d)[q] == x);
            } else if q >= d + 2 {
                assert(s.skip(d + 2)[q - d - 2] == x);
            }
        }
    }
}

/// A decimal octet reads as a number of at most 255.
proof fn lemma_dec_octet_ok(o: Seq<char>)
    requires
        dec_octet(o),
    ensures
        octet_ok(o),
{
    assert(is_digit(o[0]));
    assert(unsigned_digits(o) == o);
}

/// Every prefix the route builder can turn into a GoBGP path
/// (`CommandExecutor::parse_cidr` succeeds) passes the validity check of
/// the snapshot and CSV readers (`PrefixExtractor::is_valid_cidr`).
pub proof fn law_route_prefix_valid(p: Seq<char>)
    requires
        cidr_spec(p) is Ok,
    ensures
        valid_cidr(p),
{
    let (ip, len) = split_once(p, '/').unwrap();
    if ipv4_text(ip) {
        lemma_ipv4_lacks(ip, '*');
        lemma_ipv4_lacks(ip, ' ');
        lemma_ipv4_lacks(ip, ':');
        let o = split(ip, Sep::Char('.'));
        assert forall|i: int| 0 <= i < 4 implies octet_ok(#[trigger] o[i]) by {
            lemma_dec_octet_ok(o[i]);
        }
    } else {
        assert(ipv6_text(ip));
        lemma_ipv6_chars(ip, '*');
        lemma_ipv6_chars(ip, ' ');
    }
}

// ---------------------------------------------------------------------------
// Built-in settings
// ---------------------------------------------------------------------------

/// A one-digit octet, or two or three digits without a leading zero, of at
/// most 255.
proof fn lemma_octet(o: Seq<char>)
    requires
        1 <= o.len() <= 3,
        all_digits(o),
        o.len() == 1 || o[0] != '0',
        digits_value(o) <= 255,
    ensures
        dec_octet(o),
{
}

/// Four octets joined by dots are dotted-quad text.
proof fn lemma_quad(a: Seq<char>, b: Seq<char>, c: Seq<char>, d: Seq<char>)
    requires
        dec_octet(a),
        dec_octet(b),
        dec_octet(c),
        dec_octet(d),
    ensures
        ipv4_text(a + seq!['.'] + b + seq!['.'] + c + seq!['.'] + d),
{
    let ls = seq![a, b, c, d];
    assert forall|i: int| 0 <= i < ls.len() implies !(#[trigger] ls[i]).contains('.') by {
        if ls[i].contains('.') {
            let j = choose|j: int| 0 <= j < ls[i].len() && ls[i][j] == '.';
            assert(is_digit(ls[i][j]));
        }
    }
    lemma_split_join(ls, '.');
    assert(ls.drop_last().drop_last().drop_last() =~= seq![a]);
    assert(ls.drop_last().drop_last() =~= seq![a, b]);
    assert(ls.drop_last() =~= seq![a, b, c]);
    assert(join_with(seq![a], seq!['.']) == a);
    assert(join_with(seq![a, b], seq!['.']) == a + seq!['.'] + b);
    assert(join_with(seq![a, b, c], seq!['.']) == a + seq!['.'] + b + seq!['.'] + c);
    assert(join_with(ls, seq!['.']) == a + seq!['.'] + b + seq!['.'] + c + seq!['.'] + d);
    assert(split(a + seq!['.'] + b + seq!['.'] + c + seq!['.'] + d, Sep::Char('.')) == ls);
}

/// The built-in next hops are addresses of their family, the built-in DNS
/// servers IPv4 addresses, the built-in ASN a `u32`.
pub proof fn lemma_default_settings()
    ensures
        ip_family("0.0.0.0"@) == 4,
        ip_family("::"@) == 6,
        ip_family(seq!['2', '2', '3', '.', '5', '.', '5', '.', '5']) == 4,
        ip_family(seq!['1', '1', '9', '.', '2', '9', '.', '2', '9', '.', '2', '9']) == 4,
        parse_uint(seq!['3', '1', '6', '6'], 0xffff_ffff) is Some,
{
    reveal_with_fuel(digits_value, 5);
    assert(digit_value('0') == 0 && digit_value('1') == 1 && digit_value('2') == 2 && digit_value('3') == 3);
    assert(digit_value('5') == 5 && digit_value('6') == 6 && digit_value('9') == 9);
    reveal_strlit("0.0.0.0");
    reveal_strlit("::");
    let z = seq!['0'];
    assert(digits_value(z) == 0) by {
        assert(z.drop_last().len() == 0);
    }
    lemma_octet(z);
    lemma_quad(z, z, z, z);
    assert("0.0.0.0"@ =~= z + seq!['.'] + z + seq!['.'] + z + seq!['.'] + z);
    let f = seq!['5'];
    assert(digits_value(f) == 5) by {
        assert(f.drop_last().len() == 0);
    }
    lemma_octet(f);
    let t = seq!['2', '2', '3'];
    assert(digits_value(t) == 223) by {
        assert(t.drop_last() =~= seq!['2', '2']);
        assert(t.drop_last().drop_last() =~= seq!['2']);
        assert(t.drop_last().drop_last().drop_last().len() == 0);
    }
    lemma_octet(t);
    lemma_quad(t, f, f, f);
    assert(seq!['2', '2', '3', '.', '5', '.', '5', '.', '5'] =~= t + seq!['.'] + f + seq!['.'] + f
        + seq!['.'] + f);
    let o = seq!['1', '1', '9'];
    assert(digits_value(o) == 119) by {
        assert(o.drop_last() =~= seq!['1', '1']);
        assert(o.drop_last().drop_last() =~= seq!['1']);
        assert(o.drop_last().drop_last().drop_last().len() == 0);
    }
    lemma_octet(o);
    let n = seq!['2', '9'];
    assert(digits_value(n) == 29) by {
        assert(n.drop_last() =~= seq!['2']);
        assert(n.drop_last().drop_last().len() == 0);
    }
    lemma_octet(n);
    lemma_quad(o, n, n, n);
    assert(seq!['1', '1', '9', '.', '2', '9', '.', '2', '9', '.', '2', '9'] =~= o + seq!['.'] + n
        + seq!['.'] + n + seq!['.'] + n);
    let cc = seq![':', ':'];
    assert("::"@ =~= cc);
    assert(!cc.contains('.')) by {
        if cc.contains('.') {
            let j = choose|j: int| 0 <= j < cc.len() && cc[j] == '.';
        }
    }
    lemma_split_single(cc, '.');
    assert(!ipv4_text(cc));
    assert(double_colon(cc) == 0);
    assert(cc.take(0).len() == 0);
    assert(cc.skip(2).len() == 0);
    assert(ipv6_text(cc));
    let a = seq!['3', '1', '6', '6'];
    assert(unsigned_digits(a) == a);
    assert(digits_value(a) == 3166) by {
        assert(a.drop_last() =~= seq!['3', '1', '6']);
        assert(a.drop_last().drop_last() =~= seq!['3', '1']);
        assert(a.drop_last().drop_last().drop_last() =~= seq!['3']);
        assert(a.drop_last().drop_last().drop_last().drop_last().len() == 0);
    }
}

} // verus!
