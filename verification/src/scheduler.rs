//! Country prefix synchronisation: what changed since the last run, and
//! what each address family needs this run.
use vstd::prelude::*;

use crate::calendar::{civil_parse_ymd, parse_ymd, Date};
use crate::config::{
    community_from_old_of, ip_version_of, ip_version_text, IpVersion, Settings,
};
use crate::order::{keys_sorted, pair_views, sort_by_key};
use crate::prefix_map::{strictly_sorted, PrefixMap};
use crate::schedule::lifecycle_ok;
use crate::strmap::{keys_unique, lemma_to_map_filter, to_map, StrMap};
use crate::text::{
    append, chars_eq, chars_of, concat, join_chars, join_with, lines, lines_of, slice_of,
    starts_with, string_of, trim, trim_chars, views,
};

verus! {

broadcast use vstd::seq_lib::group_seq_properties;

// ---------------------------------------------------------------------------
// Differences between two prefix tables
// ---------------------------------------------------------------------------

/// Entries of `cur` that `last` lacks or holds with another community: what
/// to announce.
pub open spec fn diff_add(cur: Map<Seq<char>, Seq<char>>, last: Map<Seq<char>, Seq<char>>) -> Map<
    Seq<char>,
    Seq<char>,
> {
    Map::new(
        |k: Seq<char>| cur.dom().contains(k) && !(last.dom().contains(k) && last[k] == cur[k]),
        |k: Seq<char>| cur[k],
    )
}

/// Entries of `last` that `cur` lacks or holds with another community: what
/// to withdraw (with the old community).
pub open spec fn diff_del(cur: Map<Seq<char>, Seq<char>>, last: Map<Seq<char>, Seq<char>>) -> Map<
    Seq<char>,
    Seq<char>,
> {
    Map::new(
        |k: Seq<char>| last.dom().contains(k) && !(cur.dom().contains(k) && cur[k] == last[k]),
        |k: Seq<char>| last[k],
    )
}

/// `m` without the keys of `del`, then with the entries of `add`.
pub open spec fn apply_diff(
    m: Map<Seq<char>, Seq<char>>,
    del: Map<Seq<char>, Seq<char>>,
    add: Map<Seq<char>, Seq<char>>,
) -> Map<Seq<char>, Seq<char>> {
    m.remove_keys(del.dom()).union_prefer_right(add)
}

/// The entry's prefix is not a key of `m`.
pub open spec fn not_in(m: Map<Seq<char>, Seq<char>>) -> spec_fn((Seq<char>, Seq<char>)) -> bool {
    |e: (Seq<char>, Seq<char>)| !m.dom().contains(e.0)
}

/// `m` holds the entry's prefix with another community.
pub open spec fn changed_in(m: Map<Seq<char>, Seq<char>>) -> spec_fn((Seq<char>, Seq<char>)) -> bool {
    |e: (Seq<char>, Seq<char>)| m.dom().contains(e.0) && m[e.0] != e.1
}

/// The entry is absent from `m` or differs there.
pub open spec fn differs_in(m: Map<Seq<char>, Seq<char>>) -> spec_fn((Seq<char>, Seq<char>)) -> bool {
    |e: (Seq<char>, Seq<char>)| !(m.dom().contains(e.0) && m[e.0] == e.1)
}

/// The difference of a table against the previous one.
#[derive(Debug)]
pub struct PrefixDiff {
    pub to_add: PrefixMap,
    pub to_del: PrefixMap,
    /// Entries of the new table.
    pub total: usize,
    /// Prefixes that are new.
    pub added: usize,
    /// Prefixes that are gone.
    pub removed: usize,
    /// Prefixes kept with another community.
    pub changed: usize,
    /// The tables are equal.
    pub unchanged: bool,
}

/// Walks the pairs of `m` keeping those that `keep` accepts (in order) and
/// counting them.
fn keep_pairs(
    m: &PrefixMap,
    other: &PrefixMap,
    keep_code: u8,
) -> (r: (PrefixMap, usize))
    requires
        m.wf(),
        other.wf(),
        keep_code < 3,
    ensures
        r.0.wf(),
        r.0.pairs() == m.pairs().filter(keep_of(keep_code, other@)),
        r.0@ == to_map(r.0.pairs()),
        r.1 == r.0.pairs().len(),
{
    proof {
        m.lemma_view();
    }
    let ghost ps = m.pairs();
    let ghost keep = keep_of(keep_code, other@);
    let mut out = PrefixMap::new();
    let mut count: usize = 0;
    let n = m.len();
    let mut i: usize = 0;
    while i < n
        invariant
            i <= n,
            n == ps.len(),
            ps == m.pairs(),
            strictly_sorted(ps),
            keep == keep_of(keep_code, other@),
            keep_code < 3,
            other.wf(),
            out.wf(),
            out.pairs() == ps.take(i as int).filter(keep),
            out@ == to_map(out.pairs()),
            count == out.pairs().len(),
            count <= i,
        decreases n - i,
    {
        let (k, v) = m.entry(i);
        let kc = chars_of(k.as_str());
        let vc = chars_of(v.as_str());
        assert(ps.take(i + 1) == ps.take(i as int).push(ps[i as int]));
        proof {
            ps.take(i as int).lemma_filter_push(ps[i as int], keep);
        }
        let found = other.get(kc.as_slice());
        let accept = match found {
            None => keep_code != 1,
            Some(ov) => {
                let same = chars_eq(chars_of(ov.as_str()).as_slice(), vc.as_slice());
                keep_code != 0 && !same
            },
        };
        assert(accept == keep(ps[i as int]));
        if accept {
            proof {
                assert forall|j: int| 0 <= j < out.pairs().len() implies crate::order::lex_lt(
                    #[trigger] out.pairs()[j].0,
                    kc@,
                ) by {
                    let f = ps.take(i as int).filter(keep);
                    assert(f.contains(f[j]));
                    ps.take(i as int).lemma_filter_contains_rev(keep, f[j]);
                    let q = choose|q: int| 0 <= q < i && ps.take(i as int)[q] == f[j];
                    assert(ps[q] == f[j]);
                }
            }
            let ghost f = out.pairs();
            out.push_last(kc.as_slice(), vc.as_slice());
            assert(out.pairs().drop_last() == f);
            count += 1;
        }
        i += 1;
    }
    assert(ps.take(n as int) == ps);
    (out, count)
}

/// `not_in`, `changed_in` or `differs_in`, by number.
pub open spec fn keep_of(code: u8, m: Map<Seq<char>, Seq<char>>) -> spec_fn((Seq<char>, Seq<char>)) -> bool {
    if code == 0 {
        not_in(m)
    } else if code == 1 {
        changed_in(m)
    } else {
        differs_in(m)
    }
}

pub struct RouteScheduler;

impl RouteScheduler {
    /// The difference of `prefixes` against `last_set`: what to announce,
    /// what to withdraw, and the counts.
    pub fn compute_diff(prefixes: &PrefixMap, last_set: &PrefixMap) -> (r: PrefixDiff)
        requires
            prefixes.wf(),
            last_set.wf(),
        ensures
            r.to_add.wf(),
            r.to_del.wf(),
            r.to_add@ == diff_add(prefixes@, last_set@),
            r.to_del@ == diff_del(prefixes@, last_set@),
            r.total == prefixes@.dom().len(),
            r.added == prefixes.pairs().filter(not_in(last_set@)).len(),
            r.removed == last_set.pairs().filter(not_in(prefixes@)).len(),
            r.changed == prefixes.pairs().filter(changed_in(last_set@)).len(),
            r.unchanged == (prefixes@ == last_set@),
    {
        proof {
            prefixes.lemma_view();
            last_set.lemma_view();
        }
        let (to_add, _) = keep_pairs(prefixes, last_set, 2);
        let (to_del, _) = keep_pairs(last_set, prefixes, 2);
        let (_, added) = keep_pairs(prefixes, last_set, 0);
        let (_, removed) = keep_pairs(last_set, prefixes, 0);
        let (_, changed) = keep_pairs(prefixes, last_set, 1);
        let cur = prefixes;
        proof {
            lemma_to_map_filter(cur.pairs(), differs_in(last_set@));
            lemma_to_map_filter(last_set.pairs(), differs_in(cur@));
            assert(to_add@ =~= diff_add(cur@, last_set@));
            assert(to_del@ =~= diff_del(cur@, last_set@));
            to_add.lemma_view();
            to_del.lemma_view();
        }
        let unchanged = to_add.len() == 0 && to_del.len() == 0;
        proof {
            if unchanged {
                assert forall|k: Seq<char>| cur@.dom().contains(k) implies last_set@.dom().contains(k)
                    && last_set@[k] == cur@[k] by {
                    if !(last_set@.dom().contains(k) && last_set@[k] == cur@[k]) {
                        assert(to_add@.dom().contains(k));
                    }
                }
                assert forall|k: Seq<char>| last_set@.dom().contains(k) implies cur@.dom().contains(
                    k,
                ) by {
                    if !cur@.dom().contains(k) {
                        assert(to_del@.dom().contains(k));
                    }
                }
                assert(cur@ =~= last_set@);
            }
            if cur@ == last_set@ {
                if to_add.pairs().len() > 0 {
                    assert(to_add@.dom().contains(to_add.pairs()[0].0));
                }
                if to_del.pairs().len() > 0 {
                    assert(to_del@.dom().contains(to_del.pairs()[0].0));
                }
            }
        }
        PrefixDiff {
            to_add,
            to_del,
            total: cur.len(),
            added,
            removed,
            changed,
            unchanged,
        }
    }
}


// ---------------------------------------------------------------------------
// Fingerprints of the settings
// ---------------------------------------------------------------------------

/// `KEY=VALUE`.
pub open spec fn kv_text(e: (Seq<char>, Seq<char>)) -> Seq<char> {
    e.0 + seq!['='] + e.1
}

pub open spec fn kv_texts(ps: Seq<(Seq<char>, Seq<char>)>) -> Seq<Seq<char>> {
    ps.map_values(|e: (Seq<char>, Seq<char>)| kv_text(e))
}

/// The entries of `m` as pairs.
pub open spec fn map_pairs(m: Map<Seq<char>, Seq<char>>) -> Set<(Seq<char>, Seq<char>)> {
    Set::new(|e: (Seq<char>, Seq<char>)| m.dom().contains(e.0) && m[e.0] == e.1)
}

/// `out` is `m` written as `KEY=VALUE` items in key order, joined by `,`.
pub open spec fn sorted_map_text(m: Map<Seq<char>, Seq<char>>, out: Seq<char>) -> bool {
    exists|ps: Seq<(Seq<char>, Seq<char>)>|
        #![trigger keys_sorted(ps), kv_texts(ps)]
        keys_sorted(ps) && ps.to_set() == map_pairs(m) && out == join_with(kv_texts(ps), seq![','])
}

/// What decides the size of the table: the countries and the families.
pub open spec fn scope_text(country_code: Seq<char>, ip_version: IpVersion) -> Seq<char> {
    "country_code="@ + country_code + seq!['\n'] + "ip_version="@ + ip_version_text(ip_version)
        + seq!['\n']
}

/// `out` describes what decides the attributes of the routes: the
/// community ASN, the next hops and their overrides.
pub open spec fn attr_text_ok(s: Settings, out: Seq<char>) -> bool {
    exists|t4: Seq<char>, t6: Seq<char>|
        #![trigger sorted_map_text(s.community_nexthop_ipv4@, t4), sorted_map_text(s.community_nexthop_ipv6@, t6)]
        sorted_map_text(s.community_nexthop_ipv4@, t4) && sorted_map_text(
            s.community_nexthop_ipv6@,
            t6,
        ) && out == "community_asn="@ + s.community_asn@ + seq!['\n'] + "nexthop_ipv4="@
            + s.gobgp_nexthop_ipv4@ + seq!['\n'] + "nexthop_ipv6="@ + s.gobgp_nexthop_ipv6@
            + seq!['\n'] + "community_nexthop_ipv4="@ + t4 + seq!['\n'] + "community_nexthop_ipv6="@
            + t6 + seq!['\n']
}

/// A line that the state file keeps among the attributes.
pub open spec fn has_prefix(l: Seq<char>, p: Seq<char>) -> bool {
    p.len() <= l.len() && l.take(p.len() as int) == p
}

/// Reading the state file line by line: last date, country code, IP
/// version, and the attribute lines.
pub open spec fn scan_state(ls: Seq<Seq<char>>) -> (
    Option<int>,
    Option<Seq<char>>,
    Option<IpVersion>,
    Seq<char>,
)
    decreases ls.len(),
{
    if ls.len() == 0 {
        (None, None, None, seq![])
    } else {
        let (d, c, v, a) = scan_state(ls.drop_last());
        let l = ls.last();
        if has_prefix(l, "date="@) {
            (civil_parse_ymd(trim(l.skip("date="@.len() as int))), c, v, a)
        } else if has_prefix(l, "country_code="@) {
            (d, Some(trim(l.skip("country_code="@.len() as int))), v, a)
        } else if has_prefix(l, "ip_version="@) {
            (d, c, Some(ip_version_of(trim(l.skip("ip_version="@.len() as int)))), a)
        } else if l.len() == 0 {
            (d, c, v, a)
        } else if has_prefix(l, "community_asn="@) || has_prefix(l, "nexthop_"@) || has_prefix(
            l,
            "community_nexthop_"@,
        ) {
            (d, c, v, a + l + seq!['\n'])
        } else {
            (d, c, v, a)
        }
    }
}

/// What the state file says of the last run.
#[derive(Debug)]
pub struct SnapshotState {
    pub date: Option<Date>,
    pub country_code: String,
    pub ip_version: IpVersion,
    pub attrs: String,
}

/// What to do with one address family.
#[derive(Clone, Copy, PartialEq, Eq, Structural, Debug)]
pub enum FamilyAction {
    /// Not synchronised.
    Skip,
    /// Re-announce the snapshot where the RIB lacks it.
    Restore,
    /// Keep the snapshot's prefixes, rewrite communities and next hops.
    RewriteAttrs,
    /// Extract the prefixes from the CIDR lists again.
    Extract,
}

pub open spec fn family_action_of(
    need: bool,
    snapshot_empty: bool,
    lifecycle_ok: bool,
    scope_same: bool,
    attrs_same: bool,
) -> FamilyAction {
    if !need {
        FamilyAction::Skip
    } else if !lifecycle_ok || !scope_same || snapshot_empty {
        FamilyAction::Extract
    } else if !attrs_same {
        FamilyAction::RewriteAttrs
    } else {
        FamilyAction::Restore
    }
}

/// The decisions of a run.
#[derive(Clone, Copy, PartialEq, Eq, Structural, Debug)]
pub struct SyncPlan {
    /// The last extraction is still current.
    pub lifecycle_ok: bool,
    /// Countries and families are those of the last run.
    pub scope_same: bool,
    /// Communities and next hops are those of the last run.
    pub attrs_same: bool,
    /// The last run synchronised IPv4, this one does not: withdraw it.
    pub withdraw_ipv4: bool,
    pub withdraw_ipv6: bool,
    pub action_ipv4: FamilyAction,
    pub action_ipv6: FamilyAction,
}

impl RouteScheduler {
    /// `KEY=VALUE` items of a map in key order, joined by `,`.
    pub fn format_sorted_map(m: &StrMap) -> (r: String)
        requires
            m.wf(),
        ensures
            sorted_map_text(m@, r@),
    {
        proof {
            m.lemma_view();
        }
        let ghost ps = m.pairs();
        let n = m.len();
        let mut items: Vec<(Vec<char>, Vec<char>)> = Vec::new();
        let mut i: usize = 0;
        while i < n
            invariant
                i <= n,
                n == ps.len(),
                ps == m.pairs(),
                pair_views(items@) == ps.take(i as int),
            decreases n - i,
        {
            let (k, v) = m.entry(i);
            let ghost before = pair_views(items@);
            items.push((chars_of(k.as_str()), chars_of(v.as_str())));
            assert(pair_views(items@) =~= before.push(ps[i as int]));
            i += 1;
        }
        assert(ps.take(n as int) == ps);
        let sorted = sort_by_key(items);
        let ghost sv = pair_views(sorted@);
        let mut texts: Vec<Vec<char>> = Vec::new();
        let mut j: usize = 0;
        while j < sorted.len()
            invariant
                j <= sorted.len(),
                sv == pair_views(sorted@),
                views(texts@) == kv_texts(sv.take(j as int)),
            decreases sorted.len() - j,
        {
            let eq: &[char] = &['='];
            assert(eq@ =~= seq!['=']);
            let mut t = concat(sorted[j].0.as_slice(), eq);
            append(&mut t, sorted[j].1.as_slice());
            let ghost before = views(texts@);
            texts.push(t);
            assert(views(texts@) =~= before.push(kv_text(sv[j as int])));
            assert(kv_texts(sv.take(j + 1)) =~= kv_texts(sv.take(j as int)).push(kv_text(sv[j as int])));
            j += 1;
        }
        assert(sv.take(sorted.len() as int) == sv);
        let comma: &[char] = &[','];
        assert(comma@ =~= seq![',']);
        let out = join_chars(&texts, comma);
        proof {
            assert(ps.to_set() =~= map_pairs(m@)) by {
                assert forall|e: (Seq<char>, Seq<char>)| ps.to_set().contains(e) implies map_pairs(
                    m@,
                ).contains(e) by {
                    let q = choose|q: int| 0 <= q < ps.len() && ps[q] == e;
                    assert(m@.dom().contains(ps[q].0));
                }
                assert forall|e: (Seq<char>, Seq<char>)| map_pairs(m@).contains(e) implies ps.to_set().contains(e) by {
                    let q = choose|q: int| 0 <= q < ps.len() && ps[q].0 == e.0;
                    assert(m@.dom().contains(ps[q].0));
                    assert(ps[q] == e);
                }
            }
            assert(keys_sorted(sv) && kv_texts(sv) == kv_texts(sv));
        }
        string_of(out.as_slice())
    }

    /// `country_code=..` and `ip_version=..` lines.
    pub fn scope_fingerprint(settings: &Settings) -> (r: String)
        ensures
            r@ == scope_text(settings.country_code@, settings.ip_version),
    {
        let mut v = chars_of("country_code=");
        append(&mut v, chars_of(settings.country_code.as_str()).as_slice());
        v.push('\n');
        append(&mut v, chars_of("ip_version=").as_slice());
        append(&mut v, chars_of(settings.ip_version.as_str()).as_slice());
        v.push('\n');
        assert(v@ =~= scope_text(settings.country_code@, settings.ip_version));
        string_of(v.as_slice())
    }

    /// `community_asn=..`, `nexthop_ipv4=..`, `nexthop_ipv6=..` and the two
    /// override lines.
    pub fn attr_fingerprint(settings: &Settings) -> (r: String)
        requires
            settings.wf(),
        ensures
            attr_text_ok(*settings, r@),
    {
        let t4 = RouteScheduler::format_sorted_map(&settings.community_nexthop_ipv4);
        let t6 = RouteScheduler::format_sorted_map(&settings.community_nexthop_ipv6);
        let mut v = chars_of("community_asn=");
        append(&mut v, chars_of(settings.community_asn.as_str()).as_slice());
        v.push('\n');
        append(&mut v, chars_of("nexthop_ipv4=").as_slice());
        append(&mut v, chars_of(settings.gobgp_nexthop_ipv4.as_str()).as_slice());
        v.push('\n');
        append(&mut v, chars_of("nexthop_ipv6=").as_slice());
        append(&mut v, chars_of(settings.gobgp_nexthop_ipv6.as_str()).as_slice());
        v.push('\n');
        append(&mut v, chars_of("community_nexthop_ipv4=").as_slice());
        append(&mut v, chars_of(t4.as_str()).as_slice());
        v.push('\n');
        append(&mut v, chars_of("community_nexthop_ipv6=").as_slice());
        append(&mut v, chars_of(t6.as_str()).as_slice());
        v.push('\n');
        proof {
            let s = *settings;
            assert(v@ =~= "community_asn="@ + s.community_asn@ + seq!['\n'] + "nexthop_ipv4="@
                + s.gobgp_nexthop_ipv4@ + seq!['\n'] + "nexthop_ipv6="@ + s.gobgp_nexthop_ipv6@
                + seq!['\n'] + "community_nexthop_ipv4="@ + t4@ + seq!['\n']
                + "community_nexthop_ipv6="@ + t6@ + seq!['\n']);
            assert(sorted_map_text(s.community_nexthop_ipv4@, t4@) && sorted_map_text(
                s.community_nexthop_ipv6@,
                t6@,
            ));
        }
        string_of(v.as_slice())
    }

    /// The state file of a run on `today`: its date, then the scope and
    /// attribute lines.
    pub fn snapshot_state_text(settings: &Settings, today: Date) -> (r: String)
        requires
            settings.wf(),
        ensures
            exists|a: Seq<char>|
                #![trigger attr_text_ok(*settings, a)]
                attr_text_ok(*settings, a) && r@ == "date="@ + crate::calendar::date_text(today@)
                    + seq!['\n'] + scope_text(settings.country_code@, settings.ip_version) + a,
    {
        let mut v = chars_of("date=");
        append(&mut v, today.text().as_slice());
        v.push('\n');
        let scope = RouteScheduler::scope_fingerprint(settings);
        let attrs = RouteScheduler::attr_fingerprint(settings);
        append(&mut v, chars_of(scope.as_str()).as_slice());
        append(&mut v, chars_of(attrs.as_str()).as_slice());
        proof {
            assert(v@ =~= "date="@ + crate::calendar::date_text(today@) + seq!['\n'] + scope_text(
                settings.country_code@,
                settings.ip_version,
            ) + attrs@);
            assert(attr_text_ok(*settings, attrs@));
        }
        string_of(v.as_slice())
    }

    /// The rest of `line` after `p`, when it starts with `p`.
    fn after_prefix(line: &[char], p: &str) -> (r: Option<Vec<char>>)
        ensures
            match r {
                Some(rest) => has_prefix(line@, p@) && rest@ == line@.skip(p@.len() as int),
                None => !has_prefix(line@, p@),
            },
    {
        let pc = chars_of(p);
        if starts_with(line, pc.as_slice()) {
            Some(slice_of(line, pc.len(), line.len()))
        } else {
            None
        }
    }

    /// What the state file's text says of the last run: none unless it
    /// names a country code and an IP version; see `scan_state`.
    pub fn parse_snapshot_state(text: &str) -> (r: Option<SnapshotState>)
        ensures
            ({
                let (d, c, v, a) = scan_state(lines(text@));
                match r {
                    Some(st) => c == Some(st.country_code@) && v == Some(st.ip_version)
                        && a == st.attrs@ && match st.date {
                        Some(x) => d == Some(x@),
                        None => d is None,
                    },
                    None => c is None || v is None,
                }
            }),
    {
        let t = chars_of(text);
        let ls = lines_of(t.as_slice());
        let ghost lv = views(ls@);
        let mut date: Option<Date> = None;
        let mut country: Option<Vec<char>> = None;
        let mut version: Option<IpVersion> = None;
        let mut attrs: Vec<char> = Vec::new();
        let mut i: usize = 0;
        while i < ls.len()
            invariant
                i <= ls.len(),
                lv == views(ls@),
                lv == lines(text@),
                ({
                    let (d, c, v, a) = scan_state(lv.take(i as int));
                    &&& match date {
                        Some(x) => d == Some(x@),
                        None => d is None,
                    }
                    &&& match country {
                        Some(x) => c == Some(x@),
                        None => c is None,
                    }
                    &&& v == version
                    &&& a == attrs@
                }),
            decreases ls.len() - i,
        {
            assert(lv.take(i + 1).drop_last() == lv.take(i as int));
            assert(lv.take(i + 1).last() == ls@[i as int]@);
            let line = ls[i].as_slice();
            if let Some(rest) = RouteScheduler::after_prefix(line, "date=") {
                date = parse_ymd(trim_chars(rest.as_slice()).as_slice());
            } else if let Some(rest) = RouteScheduler::after_prefix(line, "country_code=") {
                country = Some(trim_chars(rest.as_slice()));
            } else if let Some(rest) = RouteScheduler::after_prefix(line, "ip_version=") {
                version = Some(IpVersion::from_str(string_of(trim_chars(rest.as_slice()).as_slice()).as_str()));
            } else if line.len() == 0 {
            } else if RouteScheduler::after_prefix(line, "community_asn=").is_some()
                || RouteScheduler::after_prefix(line, "nexthop_").is_some()
                || RouteScheduler::after_prefix(line, "community_nexthop_").is_some() {
                append(&mut attrs, line);
                attrs.push('\n');
            }
            i += 1;
        }
        assert(lv.take(ls.len() as int) == lv);
        match (country, version) {
            (Some(c), Some(v)) => Some(
                SnapshotState {
                    date,
                    country_code: string_of(c.as_slice()),
                    ip_version: v,
                    attrs: string_of(attrs.as_slice()),
                },
            ),
            _ => None,
        }
    }

    /// See `family_action_of`; `snapshot_empty` tells whether the family's
    /// snapshot file holds no entry.
    pub fn family_action(
        need: bool,
        snapshot_empty: bool,
        lifecycle_ok: bool,
        scope_same: bool,
        attrs_same: bool,
    ) -> (r: FamilyAction)
        ensures
            r == family_action_of(need, snapshot_empty, lifecycle_ok, scope_same, attrs_same),
    {
        if !need {
            return FamilyAction::Skip;
        }
        if !lifecycle_ok || !scope_same {
            return FamilyAction::Extract;
        }
        if snapshot_empty {
            return FamilyAction::Extract;
        }
        if !attrs_same {
            return FamilyAction::RewriteAttrs;
        }
        FamilyAction::Restore
    }

    /// The decisions of a run on `today` from the state of the last run and
    /// whether each family's snapshot is empty.
    pub fn plan_sync(
        settings: &Settings,
        state: &Option<SnapshotState>,
        today: Date,
        ipv4_snapshot_empty: bool,
        ipv6_snapshot_empty: bool,
    ) -> (r: SyncPlan)
        requires
            settings.wf(),
        ensures
            r.lifecycle_ok == (state matches Some(s) && s.date matches Some(d) && lifecycle_ok(
                settings.sync_schedule,
                d@,
                today@,
            )),
            r.scope_same == (state matches Some(s) && s.country_code@ == settings.country_code@
                && s.ip_version == settings.ip_version),
            exists|a: Seq<char>|
                #![trigger attr_text_ok(*settings, a)]
                attr_text_ok(*settings, a) && r.attrs_same == (state matches Some(s) && s.attrs@ == a),
            r.withdraw_ipv4 == (state matches Some(s) && (s.ip_version == IpVersion::Ipv4
                || s.ip_version == IpVersion::Dual) && settings.ip_version == IpVersion::Ipv6),
            r.withdraw_ipv6 == (state matches Some(s) && (s.ip_version == IpVersion::Ipv6
                || s.ip_version == IpVersion::Dual) && settings.ip_version == IpVersion::Ipv4),
            r.action_ipv4 == family_action_of(
                settings.ip_version != IpVersion::Ipv6,
                ipv4_snapshot_empty,
                r.lifecycle_ok,
                r.scope_same,
                r.attrs_same,
            ),
            r.action_ipv6 == family_action_of(
                settings.ip_version != IpVersion::Ipv4,
                ipv6_snapshot_empty,
                r.lifecycle_ok,
                r.scope_same,
                r.attrs_same,
            ),
    {
        let fp = RouteScheduler::attr_fingerprint(settings);
        let cc = chars_of(settings.country_code.as_str());
        let fpc = chars_of(fp.as_str());
        let (lifecycle_ok, scope_same, attrs_same, prev4, prev6) = match state {
            Some(s) => {
                let life = match s.date {
                    Some(d) => settings.sync_schedule.lifecycle_ok(d, today),
                    None => false,
                };
                let scope = chars_eq(chars_of(s.country_code.as_str()).as_slice(), cc.as_slice())
                    && s.ip_version == settings.ip_version;
                let attrs = chars_eq(chars_of(s.attrs.as_str()).as_slice(), fpc.as_slice());
                (life, scope, attrs, s.ip_version.should_process_ipv4(), s.ip_version.should_process_ipv6())
            },
            None => (false, false, false, false, false),
        };
        let need4 = settings.ip_version.should_process_ipv4();
        let need6 = settings.ip_version.should_process_ipv6();
        let action_ipv4 = RouteScheduler::family_action(
            need4,
            ipv4_snapshot_empty,
            lifecycle_ok,
            scope_same,
            attrs_same,
        );
        let action_ipv6 = RouteScheduler::family_action(
            need6,
            ipv6_snapshot_empty,
            lifecycle_ok,
            scope_same,
            attrs_same,
        );
        SyncPlan {
            lifecycle_ok,
            scope_same,
            attrs_same,
            withdraw_ipv4: prev4 && !need4,
            withdraw_ipv6: prev6 && !need6,
            action_ipv4,
            action_ipv6,
        }
    }

    /// The snapshot's prefixes with their communities carried over to the
    /// current ASN (`community_from_old`).
    pub fn rewrite_communities(settings: &Settings, old: &PrefixMap) -> (r: PrefixMap)
        requires
            old.wf(),
        ensures
            r.wf(),
            r@ == Map::new(
                |k: Seq<char>| old@.dom().contains(k),
                |k: Seq<char>| community_from_old_of(old@[k], settings.community_asn@),
            ),
    {
        proof {
            old.lemma_view();
        }
        let ghost ps = old.pairs();
        let n = old.len();
        let mut out = PrefixMap::new();
        let mut i: usize = 0;
        while i < n
            invariant
                i <= n,
                n == ps.len(),
                ps == old.pairs(),
                strictly_sorted(ps),
                out.wf(),
                out.pairs().len() == i,
                forall|j: int| 0 <= j < i ==> #[trigger] out.pairs()[j] == (ps[j].0, community_from_old_of(ps[j].1, settings.community_asn@)),
            decreases n - i,
        {
            let (k, v) = old.entry(i);
            let kc = chars_of(k.as_str());
            let nc = settings.community_from_old(v.as_str());
            proof {
                assert forall|j: int| 0 <= j < out.pairs().len() implies crate::order::lex_lt(
                    #[trigger] out.pairs()[j].0,
                    kc@,
                ) by {
                    assert(out.pairs()[j].0 == ps[j].0);
                    assert(kc@ == ps[i as int].0);
                    assert(crate::order::lex_lt(ps[j].0, ps[i as int].0));
                }
            }
            out.push_last(kc.as_slice(), chars_of(nc.as_str()).as_slice());
            i += 1;
        }
        proof {
            out.lemma_view();
            assert forall|k: Seq<char>| #[trigger] out@.dom().contains(k) <==> old@.dom().contains(k) by {
                if out@.dom().contains(k) {
                    let q = choose|q: int| 0 <= q < out.pairs().len() && out.pairs()[q].0 == k;
                    assert(old@.dom().contains(ps[q].0));
                }
                if old@.dom().contains(k) {
                    let q = choose|q: int| 0 <= q < ps.len() && ps[q].0 == k;
                    assert(out@.dom().contains(out.pairs()[q].0));
                }
            }
            assert forall|k: Seq<char>| out@.dom().contains(k) implies out@[k]
                == community_from_old_of(old@[k], settings.community_asn@) by {
                let q = choose|q: int| 0 <= q < out.pairs().len() && out.pairs()[q].0 == k;
                assert(old@.dom().contains(ps[q].0));
            }
            assert(out@ =~= Map::new(
                |k: Seq<char>| old@.dom().contains(k),
                |k: Seq<char>| community_from_old_of(old@[k], settings.community_asn@),
            ));
        }
        out
    }

    /// Seconds to sleep until the next run at `next` (Unix time) from `now`:
    /// at least 60.
    pub fn sleep_secs(next: i64, now: i64) -> (r: u64)
        ensures
            r == if next - now < 60 {
                60
            } else {
                next - now
            },
    {
        let d: i128 = next as i128 - now as i128;
        if d < 60 {
            60
        } else {
            d as u64
        }
    }
}

/// Withdrawing what the difference withdraws and announcing what it
/// announces turns the previous table into the new one.
pub proof fn law_diff_applies(cur: Map<Seq<char>, Seq<char>>, last: Map<Seq<char>, Seq<char>>)
    ensures
        apply_diff(last, diff_del(cur, last), diff_add(cur, last)) == cur,
{
    let r = apply_diff(last, diff_del(cur, last), diff_add(cur, last));
    assert forall|k: Seq<char>| #[trigger] r.dom().contains(k) <==> cur.dom().contains(k) by {}
    assert forall|k: Seq<char>| r.dom().contains(k) implies r[k] == cur[k] by {}
    assert(r =~= cur);
}

/// Equal tables differ in nothing.
pub proof fn law_diff_of_equal(m: Map<Seq<char>, Seq<char>>)
    ensures
        diff_add(m, m) == Map::<Seq<char>, Seq<char>>::empty(),
        diff_del(m, m) == Map::<Seq<char>, Seq<char>>::empty(),
{
    assert(diff_add(m, m) =~= Map::<Seq<char>, Seq<char>>::empty());
    assert(diff_del(m, m) =~= Map::<Seq<char>, Seq<char>>::empty());
}

} // verus!
