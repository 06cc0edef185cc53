//! DNS host routes: the domains file, the snapshot of resolved addresses
//! with their last-seen times, and the grace period that keeps an address
//! announced for a while after a lookup stops returning it.
use vstd::prelude::*;

use crate::calendar::{day_in_range, local_stamp, reading_of, stamp_secs_ok, LocalStamp};
use crate::assoc::{assoc_unique, lemma_assoc_dom, lemma_assoc_update, lemma_assoc_value, to_assoc};
use crate::net::{is_valid_cidr_chars, valid_cidr};
use crate::order::{lemma_lex_total, lemma_lex_transitive, lex_less, lex_lt};
use crate::prefix_map::PrefixMap;
use crate::config::IpVersion;
use crate::route::RouteManager;
use crate::strmap::{lemma_to_map_dom, pairs_view, to_map};
use crate::text::{
    append, chars_eq, chars_of, contains_char, contains_chars, join_chars, join_with, lines,
    lines_of, no_ws, split_words, lower_text, string_of, string_views, to_lower, trim,
    trim_chars, views, words,
};

verus! {

broadcast use vstd::seq_lib::group_seq_properties;

/// Community of DNS host routes.
pub const DNS_COMMUNITY: &'static str = "65535:65535";

// ---------------------------------------------------------------------------
// Domains file
// ---------------------------------------------------------------------------

/// `s` without trailing dots.
pub open spec fn trim_end_dots(s: Seq<char>) -> Seq<char>
    decreases s.len(),
{
    if s.len() > 0 && s.last() == '.' {
        trim_end_dots(s.drop_last())
    } else {
        s
    }
}

/// The domain a line of the domains file names: trimmed, trailing dots
/// dropped, lower case; blank lines and `#` comments name none.
pub open spec fn domain_of_line(l: Seq<char>) -> Option<Seq<char>> {
    let t = trim(l);
    if t.len() == 0 || t[0] == '#' {
        None
    } else {
        let d = lower_text(trim_end_dots(t));
        if d.len() == 0 {
            None
        } else {
            Some(d)
        }
    }
}

/// The domains of the lines, each once, in order of first appearance.
pub open spec fn domains_of(ls: Seq<Seq<char>>) -> Seq<Seq<char>>
    decreases ls.len(),
{
    if ls.len() == 0 {
        seq![]
    } else {
        let acc = domains_of(ls.drop_last());
        match domain_of_line(ls.last()) {
            Some(d) => if acc.contains(d) {
                acc
            } else {
                acc.push(d)
            },
            None => acc,
        }
    }
}

fn trim_end_dots_chars(v: &[char]) -> (r: Vec<char>)
    ensures
        r@ == trim_end_dots(v@),
{
    let mut n = v.len();
    while n > 0 && v[n - 1] == '.'
        invariant
            n <= v.len(),
            trim_end_dots(v@) == trim_end_dots(v@.take(n as int)),
        decreases n,
    {
        assert(v@.take(n as int).drop_last() == v@.take(n - 1));
        n -= 1;
    }
    assert(trim_end_dots(v@.take(n as int)) == v@.take(n as int));
    crate::text::slice_of(v, 0, n)
}

// ---------------------------------------------------------------------------
// The snapshot
// ---------------------------------------------------------------------------

/// One resolved host route of a domain.
#[derive(Clone, Debug)]
pub struct DnsRecord {
    pub domain: String,
    /// The address came from an AAAA lookup (or has a `:`).
    pub ipv6: bool,
    pub prefix: String,
    /// Unix time the address was last returned.
    pub last_seen: i64,
}

/// Key of a record: domain, family, prefix.
pub type RecordKey = (Seq<char>, bool, Seq<char>);

pub open spec fn records_view(v: Seq<DnsRecord>) -> Seq<(RecordKey, int)> {
    Seq::new(v.len(), |i: int| ((v[i].domain@, v[i].ipv6, v[i].prefix@), v[i].last_seen as int))
}

/// Domain → family → prefix → last seen, held as a list of records.
#[derive(Clone, Debug)]
pub struct DnsSnapshot {
    records: Vec<DnsRecord>,
}

impl View for DnsSnapshot {
    type V = Map<RecordKey, int>;

    closed spec fn view(&self) -> Map<RecordKey, int> {
        to_assoc(records_view(self.records@))
    }
}

impl DnsSnapshot {
    pub closed spec fn entries(&self) -> Seq<(RecordKey, int)> {
        records_view(self.records@)
    }

    /// No key occurs twice.
    pub closed spec fn wf(&self) -> bool {
        assoc_unique(records_view(self.records@))
    }

    pub proof fn lemma_view(&self)
        requires
            self.wf(),
        ensures
            self@ == to_assoc(self.entries()),
            self@.dom().finite(),
            forall|i: int|
                0 <= i < self.entries().len() ==> #[trigger] self@.dom().contains(
                    self.entries()[i].0,
                ) && self@[self.entries()[i].0] == self.entries()[i].1,
            forall|k: RecordKey|
                #[trigger] self@.dom().contains(k) ==> exists|i: int|
                    0 <= i < self.entries().len() && self.entries()[i].0 == k,
    {
        let ps = self.entries();
        assert forall|i: int| 0 <= i < ps.len() implies #[trigger] self@.dom().contains(ps[i].0)
            && self@[ps[i].0] == ps[i].1 by {
            lemma_assoc_value(ps, i);
        }
        assert forall|k: RecordKey| #[trigger] self@.dom().contains(k) implies exists|i: int|
            0 <= i < ps.len() && ps[i].0 == k by {
            lemma_assoc_dom(ps, k);
        }
        lemma_assoc_dom(ps, (Seq::empty(), false, Seq::empty()));
    }

    pub fn new() -> (r: DnsSnapshot)
        ensures
            r.wf(),
            r@ == Map::<RecordKey, int>::empty(),
            r.entries().len() == 0,
    {
        DnsSnapshot { records: Vec::new() }
    }

    pub fn len(&self) -> (r: usize)
        ensures
            r == self.entries().len(),
    {
        self.records.len()
    }

    /// The `i`-th record.
    pub fn record(&self, i: usize) -> (r: &DnsRecord)
        requires
            i < self.entries().len(),
        ensures
            ((r.domain@, r.ipv6, r.prefix@), r.last_seen as int) == self.entries()[i as int],
    {
        &self.records[i]
    }

    fn position(&self, domain: &[char], ipv6: bool, prefix: &[char]) -> (r: Option<usize>)
        ensures
            match r {
                Some(i) => i < self.entries().len() && self.entries()[i as int].0 == (
                    domain@,
                    ipv6,
                    prefix@,
                ),
                None => forall|i: int|
                    0 <= i < self.entries().len() ==> self.entries()[i].0 != (domain@, ipv6, prefix@),
            },
    {
        let mut i: usize = 0;
        while i < self.records.len()
            invariant
                i <= self.records.len(),
                forall|j: int| 0 <= j < i ==> self.entries()[j].0 != (domain@, ipv6, prefix@),
            decreases self.records.len() - i,
        {
            let r = &self.records[i];
            if r.ipv6 == ipv6 && chars_eq(chars_of(r.domain.as_str()).as_slice(), domain) && chars_eq(
                chars_of(r.prefix.as_str()).as_slice(),
                prefix,
            ) {
                return Some(i);
            }
            i += 1;
        }
        None
    }

    /// The last-seen time stored under the key.
    pub fn get(&self, domain: &[char], ipv6: bool, prefix: &[char]) -> (r: Option<i64>)
        requires
            self.wf(),
        ensures
            match r {
                Some(t) => self@.dom().contains((domain@, ipv6, prefix@)) && self@[(
                    domain@,
                    ipv6,
                    prefix@,
                )] == t as int,
                None => !self@.dom().contains((domain@, ipv6, prefix@)),
            },
    {
        proof {
            self.lemma_view();
        }
        match self.position(domain, ipv6, prefix) {
            Some(i) => {
                assert(self@.dom().contains(self.entries()[i as int].0));
                Some(self.records[i].last_seen)
            },
            None => None,
        }
    }

    /// Stores `t` under the key, replacing what was there.
    pub fn insert(&mut self, domain: &[char], ipv6: bool, prefix: &[char], t: i64)
        requires
            old(self).wf(),
        ensures
            final(self).wf(),
            final(self)@ == old(self)@.insert((domain@, ipv6, prefix@), t as int),
    {
        let ghost ps = self.entries();
        let rec = DnsRecord {
            domain: string_of(domain),
            ipv6,
            prefix: string_of(prefix),
            last_seen: t,
        };
        match self.position(domain, ipv6, prefix) {
            Some(i) => {
                self.records.set(i, rec);
                proof {
                    assert(self.entries() =~= ps.update(i as int, (ps[i as int].0, t as int)));
                    lemma_assoc_update(ps, i as int, t as int);
                }
            },
            None => {
                self.records.push(rec);
                assert(self.entries() =~= ps.push(((domain@, ipv6, prefix@), t as int)));
                assert(self.entries().drop_last() == ps);
            },
        }
    }
}

/// The family a prefix belongs to when read from a file: IPv6 when it has a
/// `:`.
pub open spec fn is_v6_prefix(p: Seq<char>) -> bool {
    p.contains(':')
}

/// A line of the DNS snapshot file: `PREFIX COMMUNITY DOMAIN [LAST_SEEN]`:
/// the prefix, the domain (trailing dots dropped, lower case, `_` when
/// missing) and the last-seen text when present; blank lines, comments and
/// invalid prefixes give none.
pub open spec fn dns_line(l: Seq<char>) -> Option<(Seq<char>, Seq<char>, Option<Seq<char>>)> {
    let t = trim(l);
    if t.len() == 0 || t[0] == '#' {
        None
    } else {
        let w = words(t);
        if w.len() == 0 {
            None
        } else {
            let p = trim(w[0]);
            if !valid_cidr(p) {
                None
            } else {
                let d = if w.len() > 2 && lower_text(trim_end_dots(w[2])).len() > 0 {
                    lower_text(trim_end_dots(w[2]))
                } else {
                    seq!['_']
                };
                let st = if w.len() > 3 {
                    Some(w[3])
                } else {
                    None
                };
                Some((p, d, st))
            }
        }
    }
}

pub open spec fn dns_lines(ls: Seq<Seq<char>>) -> Seq<(Seq<char>, Seq<char>, Option<Seq<char>>)>
    decreases ls.len(),
{
    if ls.len() == 0 {
        seq![]
    } else {
        let init = dns_lines(ls.drop_last());
        match dns_line(ls.last()) {
            Some(e) => init.push(e),
            None => init,
        }
    }
}

/// The snapshot that the lines give with last-seen times `seen`.
pub open spec fn snapshot_of_lines(
    es: Seq<(Seq<char>, Seq<char>, Option<Seq<char>>)>,
    seen: Seq<int>,
) -> Map<RecordKey, int> {
    to_assoc(Seq::new(es.len(), |i: int| ((es[i].1, is_v6_prefix(es[i].0), es[i].0), seen[i])))
}

/// A line of the DNS snapshot file, read.
#[derive(Clone, Debug)]
pub struct DnsLine {
    pub prefix: String,
    pub domain: String,
    pub last_seen: Option<String>,
}

pub open spec fn dns_line_view(l: DnsLine) -> (Seq<char>, Seq<char>, Option<Seq<char>>) {
    (
        l.prefix@,
        l.domain@,
        match l.last_seen {
            Some(s) => Some(s@),
            None => None,
        },
    )
}

pub open spec fn dns_line_views(v: Seq<DnsLine>) -> Seq<(Seq<char>, Seq<char>, Option<Seq<char>>)> {
    Seq::new(v.len(), |i: int| dns_line_view(v[i]))
}

/// Day number and seconds after midnight of
/// `NaiveDateTime::parse_from_str(s, "%Y-%m-%dT%H:%M:%S")`.
pub uninterp spec fn civil_parse_dt(s: Seq<char>) -> Option<(int, int)>;

/// `NaiveDateTime::parse_from_str(s, "%Y-%m-%dT%H:%M:%S")`, as the day
/// number (`num_days_from_ce`) and the seconds after midnight; a result is a
/// day chrono represents and a second of that day.
#[verifier::external_body]
fn parse_last_seen(s: &str) -> (r: Option<(i32, u32)>)
    ensures
        match r {
            Some((d, secs)) => civil_parse_dt(s@) == Some((d as int, secs as int)) && day_in_range(
                d as int,
            ) && secs < 86400,
            None => civil_parse_dt(s@) is None,
        },
{
    chrono::NaiveDateTime::parse_from_str(s, "%Y-%m-%dT%H:%M:%S")
        .ok()
        .map(|dt| (chrono::Datelike::num_days_from_ce(&dt.date()), chrono::Timelike::num_seconds_from_midnight(&dt.time())))
}

/// `t` is the last-seen time of a line whose time field is `text`, read at
/// `now`: `now` when there is no field, when it does not read, or where the
/// local clock skips that time; else the (earlier) reading of that time in
/// the machine's time zone, within a day of the time read as UTC.
pub open spec fn seen_ok(text: Option<Seq<char>>, now: int, t: int) -> bool {
    match text {
        None => t == now,
        Some(x) => match civil_parse_dt(x) {
            None => t == now,
            Some(p) => seen_at(p.0, p.1, now, t),
        },
    }
}

/// `t` is day `d` at `secs` seconds after midnight as the machine's time
/// zone reads it (the earlier of two readings), or `now` where the clock
/// skips that time.
pub open spec fn seen_at(d: int, secs: int, now: int, t: int) -> bool {
    exists|s: LocalStamp|
        #![trigger stamp_secs_ok(s, d, secs)]
        stamp_secs_ok(s, d, secs) && t == stamp_or(s, now)
}

/// The reading's time, or `now` for a gap.
pub open spec fn stamp_or(s: LocalStamp, now: int) -> int {
    match reading_of(s) {
        Some(v) => v as int,
        None => now,
    }
}

/// Unix time `t` as local `%Y-%m-%dT%H:%M:%S` (empty when chrono cannot
/// represent `t`). The digits depend on the machine's time zone and are not
/// stated; the text is made of the format's digits, signs, `-`, `T` and
/// `:`, so it holds no white space.
#[verifier::external_body]
fn format_last_seen(t: i64) -> (r: String)
    ensures
        no_ws(r@),
{
    match chrono::DateTime::from_timestamp(t, 0) {
        Some(dt) => format!("{}", dt.with_timezone(&chrono::Local).format("%Y-%m-%dT%H:%M:%S")),
        None => String::new(),
    }
}

/// Resolves domains, keeps the DNS snapshot.
pub struct DnsManager;

proof fn lemma_seen_read(x: Seq<char>, now: int, t: int, st: LocalStamp, d: int, secs: int)
    requires
        civil_parse_dt(x) == Some((d, secs)),
        stamp_secs_ok(st, d, secs),
        t == stamp_or(st, now),
    ensures
        seen_ok(Some(x), now, t),
{
    assert(seen_at(d, secs, now, t));
}

impl DnsManager {
    /// The domains of the domains file's text: see `domains_of`.
    pub fn load_domains(text: &str) -> (r: Vec<String>)
        ensures
            string_views(r@) == domains_of(lines(text@)),
    {
        let v = chars_of(text);
        let ls = lines_of(v.as_slice());
        let ghost lv = views(ls@);
        let mut out: Vec<Vec<char>> = Vec::new();
        let mut i: usize = 0;
        while i < ls.len()
            invariant
                i <= ls.len(),
                lv == views(ls@),
                lv == lines(text@),
                views(out@) == domains_of(lv.take(i as int)),
            decreases ls.len() - i,
        {
            assert(lv.take(i + 1).drop_last() == lv.take(i as int));
            assert(lv.take(i + 1).last() == ls@[i as int]@);
            let t = trim_chars(ls[i].as_slice());
            if t.len() > 0 && t[0] != '#' {
                let d = to_lower(trim_end_dots_chars(t.as_slice()).as_slice());
                if d.len() > 0 && !contains_chars(&out, d.as_slice()) {
                    let ghost before = views(out@);
                    out.push(d);
                    assert(views(out@) =~= before.push(domain_of_line(lv[i as int])->0));
                }
            }
            i += 1;
        }
        assert(lv.take(ls.len() as int) == lv);
        crate::config::strings_of(&out)
    }

    /// One line of the DNS snapshot file; see `dns_line`.
    pub fn parse_dns_line(line: &[char]) -> (r: Option<DnsLine>)
        ensures
            match r {
                Some(x) => dns_line(line@) == Some(dns_line_view(x)),
                None => dns_line(line@) is None,
            },
    {
        let t = trim_chars(line);
        if t.len() == 0 || t[0] == '#' {
            return None;
        }
        let w = split_words(t.as_slice());
        if w.len() == 0 {
            return None;
        }
        let p = trim_chars(w[0].as_slice());
        if !is_valid_cidr_chars(p.as_slice()) {
            return None;
        }
        let d = if w.len() > 2 {
            let x = to_lower(trim_end_dots_chars(w[2].as_slice()).as_slice());
            if x.len() > 0 {
                x
            } else {
                vec!['_']
            }
        } else {
            vec!['_']
        };
        let st = if w.len() > 3 {
            Some(string_of(w[3].as_slice()))
        } else {
            None
        };
        let r = DnsLine { prefix: string_of(p.as_slice()), domain: string_of(d.as_slice()), last_seen: st };
        let ghost e = dns_line(line@)->0;
        assert(dns_line_view(r).1 =~= e.1);
        Some(r)
    }

    /// The lines of the DNS snapshot file's text that hold a record.
    pub fn parse_dns_lines(text: &str) -> (r: Vec<DnsLine>)
        ensures
            dns_line_views(r@) == dns_lines(lines(text@)),
    {
        let v = chars_of(text);
        let ls = lines_of(v.as_slice());
        let ghost lv = views(ls@);
        let mut out: Vec<DnsLine> = Vec::new();
        let mut i: usize = 0;
        while i < ls.len()
            invariant
                i <= ls.len(),
                lv == views(ls@),
                lv == lines(text@),
                dns_line_views(out@) == dns_lines(lv.take(i as int)),
            decreases ls.len() - i,
        {
            assert(lv.take(i + 1).drop_last() == lv.take(i as int));
            assert(lv.take(i + 1).last() == ls@[i as int]@);
            let ghost before = dns_line_views(out@);
            match DnsManager::parse_dns_line(ls[i].as_slice()) {
                Some(x) => {
                    let ghost xv = dns_line_view(x);
                    out.push(x);
                    assert(dns_line_views(out@) =~= before.push(xv));
                },
                None => {},
            }
            i += 1;
        }
        assert(lv.take(ls.len() as int) == lv);
        out
    }

    /// The snapshot of the lines with the given last-seen times (one per
    /// line).
    pub fn snapshot_from_lines(ls: &Vec<DnsLine>, seen: &Vec<i64>) -> (r: DnsSnapshot)
        requires
            seen.len() == ls.len(),
        ensures
            r.wf(),
            r@ == snapshot_of_lines(
                dns_line_views(ls@),
                Seq::new(seen@.len(), |i: int| seen@[i] as int),
            ),
    {
        let ghost es = dns_line_views(ls@);
        let ghost sv = Seq::new(seen@.len(), |i: int| seen@[i] as int);
        let ghost ps = Seq::new(es.len(), |i: int| ((es[i].1, is_v6_prefix(es[i].0), es[i].0), sv[i]));
        let mut out = DnsSnapshot::new();
        let mut i: usize = 0;
        while i < ls.len()
            invariant
                i <= ls.len(),
                seen.len() == ls.len(),
                es == dns_line_views(ls@),
                sv == Seq::new(seen@.len(), |i: int| seen@[i] as int),
                ps == Seq::new(es.len(), |i: int| ((es[i].1, is_v6_prefix(es[i].0), es[i].0), sv[i])),
                out.wf(),
                out@ == to_assoc(ps.take(i as int)),
            decreases ls.len() - i,
        {
            assert(ps.take(i + 1).drop_last() == ps.take(i as int));
            let p = chars_of(ls[i].prefix.as_str());
            let d = chars_of(ls[i].domain.as_str());
            let v6 = contains_char(p.as_slice(), ':');
            out.insert(d.as_slice(), v6, p.as_slice(), seen[i]);
            i += 1;
        }
        assert(ps.take(ls.len() as int) == ps);
        out
    }

    /// The snapshot of the DNS snapshot file's text. A record's time is the
    /// one its line gives, read in the local time zone; a line without a
    /// readable time, or with a time the local clock skips, counts as seen
    /// `now`; see `seen_ok`.
    pub fn load_snapshot(text: &str, now: i64) -> (r: DnsSnapshot)
        ensures
            r.wf(),
            exists|seen: Seq<int>|
                #![trigger snapshot_of_lines(dns_lines(lines(text@)), seen)]
                seen.len() == dns_lines(lines(text@)).len() && (forall|i: int|
                    0 <= i < seen.len() ==> seen_ok(dns_lines(lines(text@))[i].2, now as int, #[trigger] seen[i]))
                    && r@ == snapshot_of_lines(dns_lines(lines(text@)), seen),
    {
        let ls = DnsManager::parse_dns_lines(text);
        let mut seen: Vec<i64> = Vec::new();
        let mut i: usize = 0;
        while i < ls.len()
            invariant
                i <= ls.len(),
                seen.len() == i,
                forall|j: int|
                    0 <= j < i ==> seen_ok(dns_line_view(ls@[j]).2, now as int, #[trigger] seen@[j] as int),
            decreases ls.len() - i,
        {
            let ghost lt = dns_line_view(ls@[i as int]).2;
            let t = match &ls[i].last_seen {
                Some(s) => match parse_last_seen(s.as_str()) {
                    Some((d, secs)) => {
                        let st = local_stamp(d, secs);
                        let t = match st {
                            LocalStamp::Single(t) => t,
                            LocalStamp::Ambiguous(a, _) => a,
                            LocalStamp::Gap => now,
                        };
                        assert(lt == Some(s@));
                        proof {
                            lemma_seen_read(s@, now as int, t as int, st, d as int, secs as int);
                        }
                        t
                    },
                    None => {
                        assert(lt == Some(s@));
                        now
                    },
                },
                None => now,
            };
            assert(seen_ok(lt, now as int, t as int));
            seen.push(t);
            i += 1;
        }
        let r = DnsManager::snapshot_from_lines(&ls, &seen);
        proof {
            let sv = Seq::new(seen@.len(), |i: int| seen@[i] as int);
            assert(forall|j: int| 0 <= j < sv.len() ==> seen_ok(dns_line_views(ls@)[j].2, now as int, #[trigger] sv[j]));
        }
        r
    }
}


// ---------------------------------------------------------------------------
// Flattening and differences
// ---------------------------------------------------------------------------

/// The prefixes of a snapshot, of every domain and family.
pub open spec fn snapshot_prefixes(m: Map<RecordKey, int>) -> Set<Seq<char>> {
    Set::new(|p: Seq<char>| exists|k: RecordKey| #[trigger] m.dom().contains(k) && k.2 == p)
}

/// Prefix to the DNS community, for the prefixes of a snapshot.
pub open spec fn flat_entries(m: Map<RecordKey, int>) -> Map<Seq<char>, Seq<char>> {
    Map::new(|p: Seq<char>| snapshot_prefixes(m).contains(p), |p: Seq<char>| DNS_COMMUNITY@)
}

proof fn lemma_to_map_const(ps: Seq<(Seq<char>, Seq<char>)>, c: Seq<char>, k: Seq<char>)
    requires
        forall|i: int| 0 <= i < ps.len() ==> #[trigger] ps[i].1 == c,
        to_map(ps).dom().contains(k),
    ensures
        to_map(ps)[k] == c,
    decreases ps.len(),
{
    if ps.len() > 0 && ps.last().0 != k {
        lemma_to_map_const(ps.drop_last(), c, k);
    }
}

/// Announcements and withdrawals between two DNS snapshots.
#[derive(Debug)]
pub struct DnsDiff {
    pub to_add: PrefixMap,
    pub to_del: PrefixMap,
}

/// What one lookup of a family gave.
#[derive(Clone, Debug)]
pub enum LookupFamily {
    /// The family is not synchronised.
    Skipped,
    /// The lookup failed or returned no address.
    Miss,
    /// Host prefixes (`/32` or `/128`) returned.
    Hit(Vec<String>),
}

/// The lookups of one domain.
#[derive(Clone, Debug)]
pub struct DomainLookup {
    pub ipv4: LookupFamily,
    pub ipv6: LookupFamily,
}

/// The lookup recorded last for domain `d`.
pub open spec fn lookup_of(ls: Seq<(String, DomainLookup)>, d: Seq<char>) -> Option<DomainLookup>
    decreases ls.len(),
{
    if ls.len() == 0 {
        None
    } else if ls.last().0@ == d {
        Some(ls.last().1)
    } else {
        lookup_of(ls.drop_last(), d)
    }
}

/// What a domain's lookup gave for a family; no lookup counts as a miss.
pub open spec fn family_of(l: Option<DomainLookup>, v6: bool) -> LookupFamily {
    match l {
        Some(x) => if v6 {
            x.ipv6
        } else {
            x.ipv4
        },
        None => LookupFamily::Miss,
    }
}

/// Seen `last`, still held at `now`: fewer than `grace` seconds ago (the
/// window read as `i64`).
pub open spec fn within_grace(last: int, now: int, grace: u64) -> bool {
    now - last < (grace as i64) as int
}

/// The last-seen time a key keeps after a lookup: `now` for an address
/// returned, the old time for an old address still within the grace period;
/// nothing for a skipped family.
pub open spec fn grace_entry(
    old: Map<RecordKey, int>,
    k: RecordKey,
    lf: LookupFamily,
    now: int,
    grace: u64,
) -> Option<int> {
    match lf {
        LookupFamily::Skipped => None,
        LookupFamily::Hit(live) => if string_views(live@).contains(k.2) {
            Some(now)
        } else if old.dom().contains(k) && within_grace(old[k], now, grace) {
            Some(old[k])
        } else {
            None
        },
        LookupFamily::Miss => if old.dom().contains(k) && within_grace(old[k], now, grace) {
            Some(old[k])
        } else {
            None
        },
    }
}

/// The key's entry after a round over `domains`: only listed domains keep
/// entries.
pub open spec fn grace_value(
    old: Map<RecordKey, int>,
    lookups: Seq<(String, DomainLookup)>,
    domains: Seq<Seq<char>>,
    k: RecordKey,
    now: int,
    grace: u64,
) -> Option<int> {
    if domains.contains(k.0) {
        grace_entry(old, k, family_of(lookup_of(lookups, k.0), k.1), now, grace)
    } else {
        None
    }
}

pub open spec fn graced(
    old: Map<RecordKey, int>,
    lookups: Seq<(String, DomainLookup)>,
    domains: Seq<Seq<char>>,
    now: int,
    grace: u64,
) -> Map<RecordKey, int> {
    Map::new(
        |k: RecordKey| grace_value(old, lookups, domains, k, now, grace) is Some,
        |k: RecordKey| grace_value(old, lookups, domains, k, now, grace)->0,
    )
}

/// The part of a round for domain `d` and one family.
pub open spec fn family_part(
    old: Map<RecordKey, int>,
    d: Seq<char>,
    v6: bool,
    lf: LookupFamily,
    now: int,
    grace: u64,
) -> Map<RecordKey, int> {
    Map::new(
        |k: RecordKey| k.0 == d && k.1 == v6 && grace_entry(old, k, lf, now, grace) is Some,
        |k: RecordKey| grace_entry(old, k, lf, now, grace)->0,
    )
}

/// The old entries of domain `d` and one family whose prefix is not in
/// `live` and that are still within the grace period.
pub open spec fn held_part(
    old: Map<RecordKey, int>,
    d: Seq<char>,
    v6: bool,
    live: Seq<Seq<char>>,
    now: int,
    grace: u64,
) -> Map<RecordKey, int> {
    Map::new(
        |k: RecordKey|
            k.0 == d && k.1 == v6 && !live.contains(k.2) && old.dom().contains(k) && within_grace(
                old[k],
                now,
                grace,
            ),
        |k: RecordKey| old[k],
    )
}

impl DnsManager {
    /// What the lookup of a family gave, from the host prefixes its answers
    /// hold: a miss when there is none.
    pub fn lookup_result(found: Vec<String>) -> (r: LookupFamily)
        ensures
            found@.len() == 0 ==> r is Miss,
            found@.len() > 0 ==> r == LookupFamily::Hit(found),
    {
        if found.len() == 0 {
            LookupFamily::Miss
        } else {
            LookupFamily::Hit(found)
        }
    }
}

/// Seen `last`, still held at `now`.
pub fn within_grace_exec(last: i64, now: i64, grace_secs: u64) -> (r: bool)
    ensures
        r == within_grace(last as int, now as int, grace_secs),
{
    let d: i128 = now as i128 - last as i128;
    d < (grace_secs as i64) as i128
}

impl DnsManager {
    /// Prefix to DNS community for every prefix of the snapshot.
    pub fn flatten_entries(snapshot: &DnsSnapshot) -> (r: PrefixMap)
        requires
            snapshot.wf(),
        ensures
            r.wf(),
            r@ == flat_entries(snapshot@),
    {
        proof {
            snapshot.lemma_view();
        }
        let ghost es = snapshot.entries();
        let mut pairs: Vec<(String, String)> = Vec::new();
        let n = snapshot.len();
        let mut i: usize = 0;
        while i < n
            invariant
                i <= n,
                n == es.len(),
                es == snapshot.entries(),
                pairs@.len() == i,
                pairs_view(pairs@) == Seq::new(i as nat, |j: int| (es[j].0.2, DNS_COMMUNITY@)),
            decreases n - i,
        {
            let rec = snapshot.record(i);
            let ghost before = pairs_view(pairs@);
            let c = DNS_COMMUNITY.to_owned();
            assert(c@ == DNS_COMMUNITY@);
            pairs.push((rec.prefix.clone(), c));
            assert(pairs_view(pairs@) =~= before.push((rec.prefix@, DNS_COMMUNITY@)));
            assert(rec.prefix@ == es[i as int].0.2);
            assert(pairs_view(pairs@) =~= Seq::new((i + 1) as nat, |j: int| (es[j].0.2, DNS_COMMUNITY@)));
            i += 1;
        }
        let ghost pv = pairs_view(pairs@);
        let r = PrefixMap::from_pairs(pairs);
        proof {
            assert forall|p: Seq<char>| #[trigger] r@.dom().contains(p) <==> snapshot_prefixes(
                snapshot@,
            ).contains(p) by {
                lemma_to_map_dom(pv, p);
                if r@.dom().contains(p) {
                    let j = choose|j: int| 0 <= j < pv.len() && pv[j].0 == p;
                    assert(snapshot@.dom().contains(es[j].0));
                }
                if snapshot_prefixes(snapshot@).contains(p) {
                    let k = choose|k: RecordKey| #[trigger] snapshot@.dom().contains(k) && k.2 == p;
                    let j = choose|j: int| 0 <= j < es.len() && es[j].0 == k;
                    assert(pv[j].0 == p);
                }
            }
            assert forall|p: Seq<char>| r@.dom().contains(p) implies r@[p] == DNS_COMMUNITY@ by {
                lemma_to_map_const(pv, DNS_COMMUNITY@, p);
            }
            assert(r@ =~= flat_entries(snapshot@));
        }
        r
    }

    /// The prefixes of the snapshot, each once, in `String` order.
    pub fn flatten(snapshot: &DnsSnapshot) -> (r: Vec<String>)
        requires
            snapshot.wf(),
        ensures
            string_views(r@).to_set() == snapshot_prefixes(snapshot@),
            forall|i: int, j: int| 0 <= i < j < r@.len() ==> lex_lt(r@[i]@, r@[j]@),
    {
        let m = DnsManager::flatten_entries(snapshot);
        proof {
            m.lemma_view();
        }
        let ghost ps = m.pairs();
        let n = m.len();
        let mut r: Vec<String> = Vec::new();
        let mut i: usize = 0;
        while i < n
            invariant
                i <= n,
                n == ps.len(),
                ps == m.pairs(),
                r@.len() == i,
                forall|j: int| 0 <= j < i ==> #[trigger] r@[j]@ == ps[j].0,
            decreases n - i,
        {
            let (k, _) = m.entry(i);
            r.push(k.clone());
            i += 1;
        }
        proof {
            assert forall|p: Seq<char>| string_views(r@).to_set().contains(p) <==> snapshot_prefixes(
                snapshot@,
            ).contains(p) by {
                if string_views(r@).to_set().contains(p) {
                    let j = choose|j: int| 0 <= j < r@.len() && string_views(r@)[j] == p;
                    assert(m@.dom().contains(ps[j].0));
                }
                if snapshot_prefixes(snapshot@).contains(p) {
                    assert(m@.dom().contains(p));
                    let j = choose|j: int| 0 <= j < ps.len() && ps[j].0 == p;
                    assert(string_views(r@)[j] == p);
                }
            }
            assert(string_views(r@).to_set() =~= snapshot_prefixes(snapshot@));
        }
        r
    }

    /// Prefixes to announce (new in `new`) and to withdraw (gone from
    /// `old`), with the DNS community.
    pub fn diff(old: &DnsSnapshot, new: &DnsSnapshot) -> (r: DnsDiff)
        requires
            old.wf(),
            new.wf(),
        ensures
            r.to_add.wf(),
            r.to_del.wf(),
            r.to_add@ == Map::new(
                |p: Seq<char>| snapshot_prefixes(new@).contains(p) && !snapshot_prefixes(
                    old@,
                ).contains(p),
                |p: Seq<char>| DNS_COMMUNITY@,
            ),
            r.to_del@ == Map::new(
                |p: Seq<char>| snapshot_prefixes(old@).contains(p) && !snapshot_prefixes(
                    new@,
                ).contains(p),
                |p: Seq<char>| DNS_COMMUNITY@,
            ),
    {
        let old_set = DnsManager::flatten_entries(old);
        let new_set = DnsManager::flatten_entries(new);
        let to_add = RouteManager::missing_from_rib(&new_set, &old_set);
        let to_del = RouteManager::missing_from_rib(&old_set, &new_set);
        assert(to_add@ =~= Map::new(
            |p: Seq<char>| snapshot_prefixes(new@).contains(p) && !snapshot_prefixes(old@).contains(p),
            |p: Seq<char>| DNS_COMMUNITY@,
        ));
        assert(to_del@ =~= Map::new(
            |p: Seq<char>| snapshot_prefixes(old@).contains(p) && !snapshot_prefixes(new@).contains(p),
            |p: Seq<char>| DNS_COMMUNITY@,
        ));
        DnsDiff { to_add, to_del }
    }

    /// The lookup recorded last for `d`.
    fn find_lookup<'a>(lookups: &'a Vec<(String, DomainLookup)>, d: &[char]) -> (r: Option<
        &'a DomainLookup,
    >)
        ensures
            match r {
                Some(l) => lookup_of(lookups@, d@) == Some(*l),
                None => lookup_of(lookups@, d@) is None,
            },
    {
        let mut i: usize = lookups.len();
        while i > 0
            invariant
                i <= lookups.len(),
                lookup_of(lookups@, d@) == lookup_of(lookups@.take(i as int), d@),
            decreases i,
        {
            assert(lookups@.take(i as int).drop_last() == lookups@.take(i - 1));
            assert(lookups@.take(i as int).last() == lookups@[i - 1]);
            if chars_eq(chars_of(lookups[i - 1].0.as_str()).as_slice(), d) {
                return Some(&lookups[i - 1].1);
            }
            i -= 1;
        }
        None
    }

    /// Adds to `out` the old entries of domain `d` and one family whose
    /// prefix `live` lacks and that are still within the grace period.
    fn hold_old(
        out: &mut DnsSnapshot,
        prev: &DnsSnapshot,
        d: &[char],
        v6: bool,
        live: &Vec<Vec<char>>,
        now: i64,
        grace_secs: u64,
    )
        requires
            old(out).wf(),
            prev.wf(),
        ensures
            final(out).wf(),
            final(out)@ == old(out)@.union_prefer_right(
                held_part(prev@, d@, v6, views(live@), now as int, grace_secs),
            ),
    {
        proof {
            prev.lemma_view();
        }
        let ghost out0 = out@;
        let ghost es = prev.entries();
        let ghost lv = views(live@);
        let n = prev.len();
        let mut i: usize = 0;
        while i < n
            invariant
                i <= n,
                n == es.len(),
                es == prev.entries(),
                prev.wf(),
                prev@ == to_assoc(es),
                forall|q: int|
                    0 <= q < es.len() ==> #[trigger] prev@.dom().contains(es[q].0) && prev@[es[q].0]
                        == es[q].1,
                lv == views(live@),
                out.wf(),
                out@ == out0.union_prefer_right(
                    Map::new(
                        |k: RecordKey|
                            k.0 == d@ && k.1 == v6 && !lv.contains(k.2) && to_assoc(
                                es.take(i as int),
                            ).dom().contains(k) && within_grace(prev@[k], now as int, grace_secs),
                        |k: RecordKey| prev@[k],
                    ),
                ),
            decreases n - i,
        {
            let rec = prev.record(i);
            let rp = chars_of(rec.prefix.as_str());
            let keep = rec.ipv6 == v6 && chars_eq(chars_of(rec.domain.as_str()).as_slice(), d)
                && !contains_chars(live, rp.as_slice()) && within_grace_exec(
                rec.last_seen,
                now,
                grace_secs,
            );
            let ghost k = es[i as int].0;
            assert(prev@.dom().contains(es[i as int].0));
            assert(es.take(i + 1).drop_last() == es.take(i as int));
            assert(to_assoc(es.take(i + 1)) == to_assoc(es.take(i as int)).insert(k, es[i as int].1));
            if keep {
                out.insert(d, v6, rp.as_slice(), rec.last_seen);
            }
            assert(out@ =~= out0.union_prefer_right(
                Map::new(
                    |kk: RecordKey|
                        kk.0 == d@ && kk.1 == v6 && !lv.contains(kk.2) && to_assoc(
                            es.take(i + 1),
                        ).dom().contains(kk) && within_grace(prev@[kk], now as int, grace_secs),
                    |kk: RecordKey| prev@[kk],
                ),
            ));
            i += 1;
        }
        assert(es.take(n as int) == es);
        assert(out@ =~= out0.union_prefer_right(
            held_part(prev@, d@, v6, views(live@), now as int, grace_secs),
        ));
    }

    /// Adds to `out` the entries of domain `d` and one family after a lookup
    /// `lf` (see `grace_entry`).
    fn merge_family(
        out: &mut DnsSnapshot,
        prev: &DnsSnapshot,
        d: &[char],
        v6: bool,
        lf: &LookupFamily,
        now: i64,
        grace_secs: u64,
    )
        requires
            old(out).wf(),
            prev.wf(),
        ensures
            final(out).wf(),
            final(out)@ == old(out)@.union_prefer_right(
                family_part(prev@, d@, v6, *lf, now as int, grace_secs),
            ),
    {
        let ghost out0 = out@;
        let ghost target = family_part(prev@, d@, v6, *lf, now as int, grace_secs);
        match lf {
            LookupFamily::Skipped => {
                assert(target =~= Map::<RecordKey, int>::empty());
                assert(out@ =~= out0.union_prefer_right(target));
            },
            LookupFamily::Hit(live) => {
                let live_chars = strings_chars(live);
                let ghost lv = views(live_chars@);
                let mut j: usize = 0;
                while j < live_chars.len()
                    invariant
                        j <= live_chars.len(),
                        lv == views(live_chars@),
                        out.wf(),
                        out@ == out0.union_prefer_right(
                            Map::new(
                                |k: RecordKey| k.0 == d@ && k.1 == v6 && lv.take(j as int).contains(k.2),
                                |k: RecordKey| now as int,
                            ),
                        ),
                    decreases live_chars.len() - j,
                {
                    out.insert(d, v6, live_chars[j].as_slice(), now);
                    assert(lv.take(j + 1) == lv.take(j as int).push(lv[j as int]));
                    assert(out@ =~= out0.union_prefer_right(
                        Map::new(
                            |k: RecordKey| k.0 == d@ && k.1 == v6 && lv.take(j + 1).contains(k.2),
                            |k: RecordKey| now as int,
                        ),
                    ));
                    j += 1;
                }
                assert(lv.take(live_chars.len() as int) == lv);
                DnsManager::hold_old(out, prev, d, v6, &live_chars, now, grace_secs);
                assert(out@ =~= out0.union_prefer_right(target));
            },
            LookupFamily::Miss => {
                let none: Vec<Vec<char>> = Vec::new();
                DnsManager::hold_old(out, prev, d, v6, &none, now, grace_secs);
                assert(views(none@) =~= Seq::<Seq<char>>::empty());
                assert(out@ =~= out0.union_prefer_right(target));
            },
        }
    }

    /// This round's snapshot: for each listed domain and family, the
    /// addresses returned now, and the old addresses still within the grace
    /// period (see `grace_value`). Domains not listed are dropped.
    pub fn apply_grace(
        old: &DnsSnapshot,
        lookups: &Vec<(String, DomainLookup)>,
        domains: &Vec<String>,
        grace_secs: u64,
        now: i64,
    ) -> (r: DnsSnapshot)
        requires
            old.wf(),
        ensures
            r.wf(),
            r@ == graced(old@, lookups@, string_views(domains@), now as int, grace_secs),
    {
        let ghost dv = string_views(domains@);
        let mut out = DnsSnapshot::new();
        let mut i: usize = 0;
        while i < domains.len()
            invariant
                i <= domains.len(),
                dv == string_views(domains@),
                old.wf(),
                out.wf(),
                out@ == graced(old@, lookups@, dv.take(i as int), now as int, grace_secs),
            decreases domains.len() - i,
        {
            let d = chars_of(domains[i].as_str());
            let l = DnsManager::find_lookup(lookups, d.as_slice());
            let ghost before = out@;
            match l {
                Some(x) => {
                    assert(family_of(lookup_of(lookups@, d@), false) == x.ipv4);
                    assert(family_of(lookup_of(lookups@, d@), true) == x.ipv6);
                    DnsManager::merge_family(&mut out, old, d.as_slice(), false, &x.ipv4, now, grace_secs);
                    DnsManager::merge_family(&mut out, old, d.as_slice(), true, &x.ipv6, now, grace_secs);
                },
                None => {
                    let miss = LookupFamily::Miss;
                    assert(family_of(lookup_of(lookups@, d@), false) == miss);
                    assert(family_of(lookup_of(lookups@, d@), true) == miss);
                    DnsManager::merge_family(&mut out, old, d.as_slice(), false, &miss, now, grace_secs);
                    DnsManager::merge_family(&mut out, old, d.as_slice(), true, &miss, now, grace_secs);
                },
            }
            proof {
                let nxt = dv.take(i + 1);
                assert(nxt == dv.take(i as int).push(d@));
                assert forall|k: RecordKey| nxt.contains(k.0) <==> (dv.take(i as int).contains(k.0)
                    || k.0 == d@) by {
                    if k.0 == d@ {
                        assert(nxt[i as int] == d@);
                    }
                    if nxt.contains(k.0) && k.0 != d@ {
                        let q = choose|q: int| 0 <= q < nxt.len() && nxt[q] == k.0;
                        assert(dv.take(i as int)[q] == k.0);
                    }
                }
                assert(out@ =~= graced(old@, lookups@, nxt, now as int, grace_secs));
            }
            i += 1;
        }
        assert(dv.take(domains.len() as int) == dv);
        out
    }
}


// ---------------------------------------------------------------------------
// Saving
// ---------------------------------------------------------------------------

/// Order of the saved lines: by prefix, then domain, IPv4 before IPv6.
pub open spec fn line_lt(a: RecordKey, b: RecordKey) -> bool {
    lex_lt(a.2, b.2) || (a.2 == b.2 && (lex_lt(a.0, b.0) || (a.0 == b.0 && !a.1 && b.1)))
}

proof fn lemma_line_lt_trans(a: RecordKey, b: RecordKey, c: RecordKey)
    requires
        line_lt(a, b),
        line_lt(b, c),
    ensures
        line_lt(a, c),
{
    lemma_lex_transitive(a.2, b.2, c.2);
    lemma_lex_transitive(a.0, b.0, c.0);
}

proof fn lemma_line_lt_total(a: RecordKey, b: RecordKey)
    requires
        a != b,
    ensures
        line_lt(a, b) || line_lt(b, a),
{
    lemma_lex_total(a.2, b.2);
    lemma_lex_total(a.0, b.0);
}

fn line_less(a: &DnsRecord, b: &DnsRecord) -> (r: bool)
    ensures
        r == line_lt((a.domain@, a.ipv6, a.prefix@), (b.domain@, b.ipv6, b.prefix@)),
{
    let ap = chars_of(a.prefix.as_str());
    let bp = chars_of(b.prefix.as_str());
    if lex_less(ap.as_slice(), bp.as_slice()) {
        return true;
    }
    if !chars_eq(ap.as_slice(), bp.as_slice()) {
        return false;
    }
    let ad = chars_of(a.domain.as_str());
    let bd = chars_of(b.domain.as_str());
    if lex_less(ad.as_slice(), bd.as_slice()) {
        return true;
    }
    chars_eq(ad.as_slice(), bd.as_slice()) && !a.ipv6 && b.ipv6
}

/// Position `p` occurs in `s`.
pub open spec fn covers(s: Seq<usize>, p: int) -> bool {
    exists|t: int| 0 <= t < s.len() && s[t] == p
}

/// A saved line: `PREFIX 65535:65535 DOMAIN LAST_SEEN`.
pub open spec fn save_line(k: RecordKey, stamp: Seq<char>) -> Seq<char> {
    k.2 + seq![' '] + DNS_COMMUNITY@ + seq![' '] + k.0 + seq![' '] + stamp
}

pub open spec fn save_lines(ks: Seq<RecordKey>, stamps: Seq<Seq<char>>) -> Seq<Seq<char>> {
    Seq::new(ks.len(), |i: int| save_line(ks[i], stamps[i]))
}

impl DnsManager {
    /// The positions of the records in line order.
    #[verifier::rlimit(40)]
    fn line_order(snapshot: &DnsSnapshot) -> (r: Vec<usize>)
        requires
            snapshot.wf(),
        ensures
            r@.len() == snapshot.entries().len(),
            forall|t: int| 0 <= t < r@.len() ==> r@[t] < snapshot.entries().len(),
            forall|p: int| 0 <= p < snapshot.entries().len() ==> #[trigger] covers(r@, p),
            forall|a: int, b: int|
                0 <= a < b < r@.len() ==> line_lt(
                    snapshot.entries()[r@[a] as int].0,
                    snapshot.entries()[r@[b] as int].0,
                ),
    {
        let ghost es = snapshot.entries();
        let n = snapshot.len();
        let mut out: Vec<usize> = Vec::new();
        let mut i: usize = 0;
        while i < n
            invariant
                i <= n,
                n == es.len(),
                es == snapshot.entries(),
                snapshot.wf(),
                out@.len() == i,
                forall|t: int| 0 <= t < out@.len() ==> out@[t] < i,
                forall|p: int| 0 <= p < i ==> #[trigger] covers(out@, p),
                forall|a: int, b: int|
                    0 <= a < b < out@.len() ==> line_lt(es[out@[a] as int].0, es[out@[b] as int].0),
            decreases n - i,
        {
            let x = snapshot.record(i);
            let mut j: usize = 0;
            while j < out.len()
                invariant
                    j <= out@.len(),
                    out@.len() == i,
                    i < n,
                    n == es.len(),
                    es == snapshot.entries(),
                    ((x.domain@, x.ipv6, x.prefix@), x.last_seen as int) == es[i as int],
                    forall|t: int| 0 <= t < out@.len() ==> out@[t] < i,
                    forall|q: int| 0 <= q < j ==> !line_lt(es[i as int].0, es[out@[q] as int].0),
                ensures
                    j <= out@.len(),
                    forall|q: int| 0 <= q < j ==> !line_lt(es[i as int].0, es[out@[q] as int].0),
                    j < out@.len() ==> line_lt(es[i as int].0, es[out@[j as int] as int].0),
                decreases out@.len() - j,
            {
                let y = snapshot.record(out[j]);
                if line_less(x, y) {
                    break;
                }
                j += 1;
            }
            let ghost before = out@;
            proof {
                assert forall|q: int| 0 <= q < j implies line_lt(es[before[q] as int].0, es[i as int].0) by {
                    assert(before[q] != i);
                    assert(es[before[q] as int].0 != es[i as int].0) by {
                        if es[before[q] as int].0 == es[i as int].0 {
                            assert(assoc_unique(es));
                        }
                    }
                    lemma_line_lt_total(es[before[q] as int].0, es[i as int].0);
                }
                if j < before.len() {
                    assert forall|q: int| j <= q < before.len() implies line_lt(es[i as int].0, es[before[q] as int].0) by {
                        if q > j {
                            lemma_line_lt_trans(es[i as int].0, es[before[j as int] as int].0, es[before[q] as int].0);
                        }
                    }
                }
                before.insert_ensures(j as int, i);
            }
            out.insert(j, i);
            proof {
                let ins = before.insert(j as int, i);
                assert(out@ == ins);
                assert forall|t: int| 0 <= t < ins.len() implies ins[t] < i + 1 by {
                    if t > j {
                        assert(ins[t] == before[t - 1]);
                    }
                }
                assert forall|p: int| 0 <= p < i + 1 implies #[trigger] covers(ins, p) by {
                    if p == i {
                        assert(ins[j as int] == p);
                    } else {
                        assert(covers(before, p));
                        let t = choose|t: int| 0 <= t < before.len() && before[t] == p;
                        if t < j {
                            assert(ins[t] == p);
                        } else {
                            assert(ins[t + 1] == p);
                        }
                    }
                }
                assert forall|a: int, b: int| 0 <= a < b < ins.len() implies line_lt(es[ins[a] as int].0, es[ins[b] as int].0) by {
                    if a < j && b < j {
                    } else if a < j && b == j {
                    } else if a < j && b > j {
                        assert(ins[b] == before[b - 1]);
                        lemma_line_lt_trans(es[before[a] as int].0, es[i as int].0, es[before[b - 1] as int].0);
                    } else if a == j {
                        assert(ins[b] == before[b - 1]);
                    } else {
                        assert(ins[a] == before[a - 1]);
                        assert(ins[b] == before[b - 1]);
                    }
                }
            }
            i += 1;
        }
        out
    }

    /// The DNS snapshot file's text: `PREFIX 65535:65535 DOMAIN LAST_SEEN`
    /// per record, by prefix, then domain, IPv4 first, joined by newlines.
    /// The last-seen text is the local time of the record, which depends on
    /// the machine's time zone.
    pub fn snapshot_text(snapshot: &DnsSnapshot) -> (r: String)
        requires
            snapshot.wf(),
        ensures
            exists|ks: Seq<RecordKey>, stamps: Seq<Seq<char>>|
                #![trigger save_lines(ks, stamps)]
                ks.len() == stamps.len() && ks.to_set() == snapshot@.dom() && (forall|a: int, b: int|
                    0 <= a < b < ks.len() ==> line_lt(ks[a], ks[b])) && (forall|i: int|
                    0 <= i < stamps.len() ==> no_ws(#[trigger] stamps[i])) && r@ == join_with(
                    save_lines(ks, stamps),
                    seq!['\n'],
                ),
    {
        proof {
            snapshot.lemma_view();
        }
        let ghost es = snapshot.entries();
        let order = DnsManager::line_order(snapshot);
        let ghost ks = Seq::new(order@.len(), |t: int| es[order@[t] as int].0);
        let mut lines: Vec<Vec<char>> = Vec::new();
        let ghost mut stamps: Seq<Seq<char>> = Seq::empty();
        let mut t: usize = 0;
        while t < order.len()
            invariant
                t <= order@.len(),
                es == snapshot.entries(),
                order@.len() == es.len(),
                forall|u: int| 0 <= u < order@.len() ==> order@[u] < es.len(),
                ks == Seq::new(order@.len(), |u: int| es[order@[u] as int].0),
                stamps.len() == t,
                forall|i: int| 0 <= i < stamps.len() ==> no_ws(#[trigger] stamps[i]),
                views(lines@) == save_lines(ks.take(t as int), stamps),
            decreases order@.len() - t,
        {
            let rec = snapshot.record(order[t]);
            let stamp = format_last_seen(rec.last_seen);
            let mut l = chars_of(rec.prefix.as_str());
            l.push(' ');
            append(&mut l, chars_of(DNS_COMMUNITY).as_slice());
            l.push(' ');
            append(&mut l, chars_of(rec.domain.as_str()).as_slice());
            l.push(' ');
            append(&mut l, chars_of(stamp.as_str()).as_slice());
            let ghost before = views(lines@);
            lines.push(l);
            proof {
                let k = ks[t as int];
                assert(k == es[order@[t as int] as int].0);
                assert(l@ =~= save_line(k, stamp@));
                let old_st = stamps;
                stamps = stamps.push(stamp@);
                assert(ks.take(t + 1) == ks.take(t as int).push(k));
                assert(save_lines(ks.take(t + 1), stamps) =~= save_lines(ks.take(t as int), old_st).push(
                    save_line(k, stamp@),
                ));
                assert(views(lines@) =~= before.push(l@));
            }
            t += 1;
        }
        let nl: &[char] = &['\n'];
        assert(nl@ =~= seq!['\n']);
        let text = join_chars(&lines, nl);
        proof {
            assert(ks.take(order@.len() as int) == ks);
            assert(ks.to_set() =~= snapshot@.dom()) by {
                assert forall|k: RecordKey| ks.to_set().contains(k) implies snapshot@.dom().contains(k) by {
                    let u = choose|u: int| 0 <= u < ks.len() && ks[u] == k;
                    assert(snapshot@.dom().contains(es[order@[u] as int].0));
                }
                assert forall|k: RecordKey| snapshot@.dom().contains(k) implies ks.to_set().contains(k) by {
                    let p = choose|p: int| 0 <= p < es.len() && es[p].0 == k;
                    assert(covers(order@, p));
                    let u = choose|u: int| 0 <= u < order@.len() && order@[u] == p;
                    assert(ks[u] == k);
                }
            }
            assert(ks.len() == stamps.len());
            assert(forall|a: int, b: int| 0 <= a < b < ks.len() ==> line_lt(ks[a], ks[b]));
        }
        string_of(text.as_slice())
    }
}

/// The character vectors of strings.
fn strings_chars(v: &Vec<String>) -> (r: Vec<Vec<char>>)
    ensures
        views(r@) == string_views(v@),
{
    let mut r: Vec<Vec<char>> = Vec::new();
    let mut i: usize = 0;
    while i < v.len()
        invariant
            i <= v.len(),
            views(r@) == string_views(v@).take(i as int),
        decreases v.len() - i,
    {
        let ghost before = views(r@);
        r.push(chars_of(v[i].as_str()));
        assert(views(r@) =~= before.push(v@[i as int]@));
        i += 1;
    }
    assert(string_views(v@).take(v.len() as int) == string_views(v@));
    r
}

// ---------------------------------------------------------------------------
// Reconciling with the RIB
// ---------------------------------------------------------------------------

/// What reconciling the DNS routes with GoBGP's RIB does next.
#[derive(Debug)]
pub enum ReconcileAction {
    /// List the global unicast RIB of a family (IPv6 when true).
    List(bool),
    /// Announce these routes, missing from the RIB; their failures are the
    /// result.
    Add(PrefixMap),
    /// Done, with this many failures.
    Finish(u32),
}

/// The families whose RIB is listed: IPv4, then IPv6, as far as the version
/// processes them.
pub open spec fn rib_families(v: IpVersion) -> Seq<bool> {
    (if v == IpVersion::Ipv4 || v == IpVersion::Dual {
        seq![false]
    } else {
        seq![]
    }) + (if v == IpVersion::Ipv6 || v == IpVersion::Dual {
        seq![true]
    } else {
        seq![]
    })
}

/// The desired routes whose prefix the RIB lacks.
pub open spec fn missing_routes(desired: Map<Seq<char>, Seq<char>>, rib: Map<Seq<char>, Seq<char>>) -> Map<
    Seq<char>,
    Seq<char>,
> {
    Map::new(|k: Seq<char>| desired.dom().contains(k) && !rib.dom().contains(k), |k: Seq<char>| desired[k])
}

/// Reconciling the DNS routes of a snapshot with GoBGP's RIB: only routes
/// missing from the RIB are announced, nothing is withdrawn. Holds the
/// desired routes, the families still to list and the RIB listed so far.
pub struct RibReconcile {
    pub entries: PrefixMap,
    pub todo: Vec<bool>,
    pub rib: PrefixMap,
}

impl RibReconcile {
    pub open spec fn wf(&self) -> bool {
        self.entries.wf() && self.rib.wf()
    }

    /// `a` comes next: list the next family; once all are listed, announce
    /// the missing routes, or finish without failure when none is missing.
    pub open spec fn next_ok(&self, a: ReconcileAction) -> bool {
        match a {
            ReconcileAction::List(f) => self.todo@.len() > 0 && f == self.todo@[0],
            ReconcileAction::Add(m) => {
                &&& self.todo@.len() == 0
                &&& m.wf()
                &&& m@ == missing_routes(self.entries@, self.rib@)
                &&& m@.dom().len() > 0
            },
            ReconcileAction::Finish(n) => {
                &&& self.todo@.len() == 0
                &&& n == 0
                &&& missing_routes(self.entries@, self.rib@).dom().len() == 0
            },
        }
    }

    fn next(&self) -> (a: ReconcileAction)
        requires
            self.wf(),
        ensures
            self.next_ok(a),
    {
        if self.todo.len() > 0 {
            ReconcileAction::List(self.todo[0])
        } else {
            let m = RouteManager::missing_from_rib(&self.entries, &self.rib);
            if m.len() == 0 {
                ReconcileAction::Finish(0)
            } else {
                ReconcileAction::Add(m)
            }
        }
    }

    /// Starts reconciling the routes of `desired`: with none, finishes at
    /// once without listing anything; else lists the families of `version`.
    pub fn start(desired: &DnsSnapshot, version: IpVersion) -> (r: (RibReconcile, ReconcileAction))
        requires
            desired.wf(),
        ensures
            r.0.wf(),
            r.0.entries@ == flat_entries(desired@),
            r.0.rib@ == Map::<Seq<char>, Seq<char>>::empty(),
            r.0.todo@ == rib_families(version),
            flat_entries(desired@).dom().len() == 0 ==> (r.1 matches ReconcileAction::Finish(n) && n == 0),
            flat_entries(desired@).dom().len() > 0 ==> r.0.next_ok(r.1),
    {
        let entries = DnsManager::flatten_entries(desired);
        let mut todo: Vec<bool> = Vec::new();
        if version.should_process_ipv4() {
            todo.push(false);
        }
        if version.should_process_ipv6() {
            todo.push(true);
        }
        assert(todo@ =~= rib_families(version));
        let rec = RibReconcile { entries, todo, rib: PrefixMap::new() };
        if rec.entries.len() == 0 {
            return (rec, ReconcileAction::Finish(0));
        }
        let a = rec.next();
        (rec, a)
    }

    /// Takes the listing of the next family: a failed listing finishes with
    /// one failure; a listing joins the RIB and the next step follows.
    pub fn listed(&mut self, found: Option<PrefixMap>) -> (a: ReconcileAction)
        requires
            old(self).wf(),
            old(self).todo@.len() > 0,
            found matches Some(m) ==> m.wf(),
        ensures
            final(self).wf(),
            final(self).entries@ == old(self).entries@,
            match found {
                None => (a matches ReconcileAction::Finish(n) && n == 1),
                Some(m) => {
                    &&& final(self).todo@ == old(self).todo@.drop_first()
                    &&& final(self).rib@ == old(self).rib@.union_prefer_right(m@)
                    &&& final(self).next_ok(a)
                },
            },
    {
        match found {
            None => ReconcileAction::Finish(1),
            Some(m) => {
                self.rib = PrefixMap::union(&self.rib, &m);
                self.todo.remove(0);
                assert(self.todo@ =~= old(self).todo@.drop_first());
                self.next()
            },
        }
    }
}

} // verus!
