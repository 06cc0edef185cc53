//! Country CIDR lists: download planning and extraction of the prefixes of
//! the selected countries.
use vstd::prelude::*;

use crate::assoc::{assoc_unique, lemma_assoc_dom, lemma_assoc_value, to_assoc};
use crate::calendar::{civil_parse_ymd, date_text, parse_ymd, Date};
use crate::config::{
    community_for, lit_all, lit_nonecn, selected, country_tokens_of, IpVersion, Settings,
};
use crate::order::lex_lt;
use crate::schedule::lifecycle_ok;
use crate::net::{is_valid_cidr_chars, valid_cidr};
use crate::prefix_map::PrefixMap;
use crate::strmap::{lemma_to_map_dom, pairs_view, to_map, StrMap};
use crate::text::{
    append, chars_eq, chars_of, concat, contains_chars, join_chars, join_with, lines, lines_of,
    split_once, split_once_chars, split_words, starts_with, upper_text, string_of, string_views,
    to_upper, trim, trim_chars, views, words,
};

verus! {

broadcast use vstd::seq_lib::group_seq_properties;

// ---------------------------------------------------------------------------
// Downloads
// ---------------------------------------------------------------------------

/// The URLs tried for a download: the URL itself, then for `http://` the
/// same address over `https://`.
pub open spec fn download_urls_of(url: Seq<char>) -> Seq<Seq<char>> {
    let plain = "http://"@;
    if plain.len() <= url.len() && url.take(plain.len() as int) == plain {
        seq![url, "https://"@ + url.skip(plain.len() as int)]
    } else {
        seq![url]
    }
}

/// One step of a download: fetch the candidate URL with this index, or
/// pause for some seconds.
#[derive(Clone, Copy, PartialEq, Eq, Structural, Debug)]
pub enum DownloadStep {
    Fetch(usize),
    Pause(u64),
}

/// Every candidate, in order.
pub open spec fn fetch_all(n: nat) -> Seq<DownloadStep> {
    Seq::new(n, |i: int| DownloadStep::Fetch(i as usize))
}

/// `retry` rounds over `n` candidates, 3 s apart; the first success ends it.
pub open spec fn download_plan(retry: nat, n: nat) -> Seq<DownloadStep>
    decreases retry,
{
    if retry == 0 {
        seq![]
    } else if retry == 1 {
        fetch_all(n)
    } else {
        fetch_all(n) + seq![DownloadStep::Pause(3)] + download_plan((retry - 1) as nat, n)
    }
}

/// Downloads the country CIDR lists: a number of rounds and a read timeout
/// in seconds.
pub struct GeoDataFetcher {
    pub retry: u32,
    pub timeout: u64,
}

impl GeoDataFetcher {
    /// Three rounds, 120 s read timeout.
    pub fn new() -> (r: GeoDataFetcher)
        ensures
            r.retry == 3,
            r.timeout == 120,
    {
        GeoDataFetcher { retry: 3, timeout: 120 }
    }

    /// See `download_urls_of`.
    pub fn download_urls(url: &str) -> (r: Vec<String>)
        ensures
            string_views(r@) == download_urls_of(url@),
    {
        let v = chars_of(url);
        let plain = chars_of("http://");
        let secure = chars_of("https://");
        let mut r: Vec<String> = Vec::new();
        r.push(url.to_owned());
        if starts_with(v.as_slice(), plain.as_slice()) {
            let rest = crate::text::slice_of(v.as_slice(), plain.len(), v.len());
            let u = concat(secure.as_slice(), rest.as_slice());
            r.push(string_of(u.as_slice()));
        }
        assert(string_views(r@) =~= download_urls_of(url@));
        r
    }

    /// The steps of a download of `url`: see `download_plan`; the indices
    /// point into `download_urls(url)`.
    pub fn download_steps(&self, url: &str) -> (r: Vec<DownloadStep>)
        ensures
            r@ == download_plan(self.retry as nat, download_urls_of(url@).len()),
    {
        let n = GeoDataFetcher::download_urls(url).len();
        let mut r: Vec<DownloadStep> = Vec::new();
        let mut round: u32 = 0;
        while round < self.retry
            invariant
                round <= self.retry,
                n == download_urls_of(url@).len(),
                r@ + download_plan((self.retry - round) as nat, n as nat) == download_plan(
                    self.retry as nat,
                    n as nat,
                ),
                round > 0 && round < self.retry ==> r@.len() > 0 && r@.last() == DownloadStep::Pause(3),
            decreases self.retry - round,
        {
            let ghost before = r@;
            let ghost left = (self.retry - round) as nat;
            let mut i: usize = 0;
            while i < n
                invariant
                    i <= n,
                    r@ == before + fetch_all(n as nat).take(i as int),
                decreases n - i,
            {
                r.push(DownloadStep::Fetch(i));
                assert(fetch_all(n as nat).take(i + 1) == fetch_all(n as nat).take(i as int).push(
                    DownloadStep::Fetch(i),
                ));
                i += 1;
            }
            assert(fetch_all(n as nat).take(n as int) == fetch_all(n as nat));
            if round + 1 < self.retry {
                r.push(DownloadStep::Pause(3));
                assert(download_plan(left, n as nat) == fetch_all(n as nat) + seq![DownloadStep::Pause(3)]
                    + download_plan((left - 1) as nat, n as nat));
                assert(r@ + download_plan((left - 1) as nat, n as nat) =~= before + download_plan(
                    left,
                    n as nat,
                ));
            } else {
                assert(download_plan(0, n as nat) == Seq::<DownloadStep>::empty());
                assert(r@ + download_plan(0, n as nat) =~= before + download_plan(left, n as nat));
            }
            round += 1;
        }
        assert(r@ + download_plan(0, n as nat) == r@);
        r
    }
}

// ---------------------------------------------------------------------------
// Extraction
// ---------------------------------------------------------------------------

/// Which lines of a CIDR list are kept, by country code.
pub enum CountryLineFilter {
    Any,
    Exclude(Vec<char>),
    Only(Vec<Vec<char>>),
}

pub open spec fn keeps(filter: CountryLineFilter, cc: Seq<char>) -> bool {
    match filter {
        CountryLineFilter::Any => true,
        CountryLineFilter::Exclude(code) => cc != code@,
        CountryLineFilter::Only(set) => views(set@).contains(cc),
    }
}

/// The entry of one line `cidr,cc` of a CIDR list: the trimmed prefix and
/// the community of the upper-cased country; blank lines, `#` comments,
/// lines without a comma or with an empty field, countries the filter drops
/// and invalid prefixes give none.
pub open spec fn csv_entry(line: Seq<char>, filter: CountryLineFilter, asn: Seq<char>) -> Option<
    (Seq<char>, Seq<char>),
> {
    let t = trim(line);
    if t.len() == 0 || t[0] == '#' {
        None
    } else {
        match split_once(t, ',') {
            None => None,
            Some((c, k)) => {
                let cidr = trim(c);
                let cc = upper_text(trim(k));
                if cidr.len() == 0 || cc.len() == 0 || !keeps(filter, cc) || !valid_cidr(cidr) {
                    None
                } else {
                    Some((cidr, community_for(cc, asn)))
                }
            },
        }
    }
}

/// The entries of the lines, in order.
pub open spec fn csv_entries(ls: Seq<Seq<char>>, filter: CountryLineFilter, asn: Seq<char>) -> Seq<
    (Seq<char>, Seq<char>),
>
    decreases ls.len(),
{
    if ls.len() == 0 {
        seq![]
    } else {
        let init = csv_entries(ls.drop_last(), filter, asn);
        match csv_entry(ls.last(), filter, asn) {
            Some(e) => init.push(e),
            None => init,
        }
    }
}

/// Prefix to community of a CIDR list: the entries of its lines, a prefix
/// listed twice taking its last community.
pub open spec fn csv_prefixes(text: Seq<char>, filter: CountryLineFilter, asn: Seq<char>) -> Map<
    Seq<char>,
    Seq<char>,
> {
    to_map(csv_entries(lines(text), filter, asn))
}

/// The filter that `country_code` selects: all countries, all but `CN`, or
/// the named countries.
pub open spec fn filter_ok(country_code: Seq<char>, f: CountryLineFilter) -> bool {
    if country_code == lit_all() {
        f is Any
    } else if country_code == lit_nonecn() {
        f matches CountryLineFilter::Exclude(c) && c@ == seq!['C', 'N']
    } else {
        f matches CountryLineFilter::Only(set) && views(set@) == country_tokens_of(country_code).filter(
            |t: Seq<char>| selected(t),
        )
    }
}

/// The prefixes of one family: nothing when the family is not processed
/// or its list is missing.
pub open spec fn family_prefixes(
    process: bool,
    data: Map<Seq<char>, Seq<char>>,
    key: Seq<char>,
    filter: CountryLineFilter,
    asn: Seq<char>,
) -> Map<Seq<char>, Seq<char>> {
    if process && data.dom().contains(key) {
        csv_prefixes(data[key], filter, asn)
    } else {
        Map::empty()
    }
}

/// Extracts prefixes from the country CIDR lists.
pub struct PrefixExtractor;

impl PrefixExtractor {
    /// See `valid_cidr`.
    pub fn is_valid_cidr(prefix: &str) -> (r: bool)
        ensures
            r == valid_cidr(prefix@),
    {
        let v = chars_of(prefix);
        is_valid_cidr_chars(v.as_slice())
    }

    /// The filter keeps country `cc`.
    pub fn keep_country(cc: &[char], filter: &CountryLineFilter) -> (r: bool)
        ensures
            r == keeps(*filter, cc@),
    {
        match filter {
            CountryLineFilter::Any => true,
            CountryLineFilter::Exclude(code) => !chars_eq(cc, code.as_slice()),
            CountryLineFilter::Only(set) => contains_chars(set, cc),
        }
    }

    /// The entry of one line; see `csv_entry`.
    pub fn csv_line(line: &[char], filter: &CountryLineFilter, settings: &Settings) -> (r: Option<
        (String, String),
    >)
        ensures
            match r {
                Some((p, c)) => csv_entry(line@, *filter, settings.community_asn@) == Some(
                    (p@, c@),
                ),
                None => csv_entry(line@, *filter, settings.community_asn@) is None,
            },
    {
        let t = trim_chars(line);
        if t.len() == 0 || t[0] == '#' {
            return None;
        }
        let (c, k) = match split_once_chars(t.as_slice(), ',') {
            Some(x) => x,
            None => {
                return None;
            },
        };
        let cidr = trim_chars(c.as_slice());
        let cc = to_upper(trim_chars(k.as_slice()).as_slice());
        if cidr.len() == 0 || cc.len() == 0 {
            return None;
        }
        if !PrefixExtractor::keep_country(cc.as_slice(), filter) {
            return None;
        }
        if !is_valid_cidr_chars(cidr.as_slice()) {
            return None;
        }
        let ccs = string_of(cc.as_slice());
        let community = match settings.community_for_country(ccs.as_str()) {
            Some(x) => x,
            None => String::new(),
        };
        Some((string_of(cidr.as_slice()), community))
    }

    /// Prefix to community of a CIDR list (`cidr,country` lines); see
    /// `csv_prefixes`.
    pub fn extract_cidr_csv(text: &str, filter: &CountryLineFilter, settings: &Settings) -> (r:
        PrefixMap)
        ensures
            r.wf(),
            r@ == csv_prefixes(text@, *filter, settings.community_asn@),
    {
        let v = chars_of(text);
        let ls = lines_of(v.as_slice());
        let ghost lv = views(ls@);
        let ghost asn = settings.community_asn@;
        let mut pairs: Vec<(String, String)> = Vec::new();
        let mut i: usize = 0;
        while i < ls.len()
            invariant
                i <= ls.len(),
                lv == views(ls@),
                lv == lines(text@),
                asn == settings.community_asn@,
                pairs_view(pairs@) == csv_entries(lv.take(i as int), *filter, asn),
            decreases ls.len() - i,
        {
            assert(lv.take(i + 1).drop_last() == lv.take(i as int));
            assert(lv.take(i + 1).last() == ls@[i as int]@);
            let ghost before = pairs_view(pairs@);
            match PrefixExtractor::csv_line(ls[i].as_slice(), filter, settings) {
                Some(e) => {
                    let ghost ev = (e.0@, e.1@);
                    pairs.push(e);
                    assert(pairs_view(pairs@) =~= before.push(ev));
                },
                None => {},
            }
            i += 1;
        }
        assert(lv.take(ls.len() as int) == lv);
        PrefixMap::from_pairs(pairs)
    }

    /// The filter for the settings' `country_code`.
    pub fn country_filter(settings: &Settings) -> (r: CountryLineFilter)
        ensures
            filter_ok(settings.country_code@, r),
    {
        if settings.is_all() {
            CountryLineFilter::Any
        } else if settings.should_filter_cn() {
            let cn: Vec<char> = vec!['C', 'N'];
            assert(cn@ =~= seq!['C', 'N']);
            CountryLineFilter::Exclude(cn)
        } else {
            let names = settings.selected_countries();
            let mut set: Vec<Vec<char>> = Vec::new();
            let mut i: usize = 0;
            while i < names.len()
                invariant
                    i <= names.len(),
                    views(set@) == string_views(names@).take(i as int),
                decreases names.len() - i,
            {
                let ghost before = views(set@);
                set.push(chars_of(names[i].as_str()));
                assert(views(set@) =~= before.push(names@[i as int]@));
                assert(string_views(names@).take(i + 1) =~= string_views(names@).take(i as int).push(
                    names@[i as int]@,
                ));
                i += 1;
            }
            assert(string_views(names@).take(names.len() as int) == string_views(names@));
            CountryLineFilter::Only(set)
        }
    }

    /// The IPv4 and IPv6 prefixes of the selected countries from the CIDR
    /// lists in `geo_data` (keys `ipv4`, `ipv6`); a family is processed when
    /// `ip_version` selects it (both when none is given).
    pub fn get_prefixes_by_country_mode(
        settings: &Settings,
        geo_data: &StrMap,
        ip_version: Option<IpVersion>,
    ) -> (r: (PrefixMap, PrefixMap))
        requires
            geo_data.wf(),
        ensures
            r.0.wf(),
            r.1.wf(),
            exists|f: CountryLineFilter|
                #![trigger filter_ok(settings.country_code@, f)]
                filter_ok(settings.country_code@, f) && r.0@ == family_prefixes(
                    match ip_version {
                        Some(v) => v == IpVersion::Ipv4 || v == IpVersion::Dual,
                        None => true,
                    },
                    geo_data@,
                    "ipv4"@,
                    f,
                    settings.community_asn@,
                ) && r.1@ == family_prefixes(
                    match ip_version {
                        Some(v) => v == IpVersion::Ipv6 || v == IpVersion::Dual,
                        None => true,
                    },
                    geo_data@,
                    "ipv6"@,
                    f,
                    settings.community_asn@,
                ),
    {
        let process_ipv4 = match ip_version {
            Some(v) => v.should_process_ipv4(),
            None => true,
        };
        let process_ipv6 = match ip_version {
            Some(v) => v.should_process_ipv6(),
            None => true,
        };
        let filter = PrefixExtractor::country_filter(settings);
        let k4 = chars_of("ipv4");
        let k6 = chars_of("ipv6");
        let v4 = if process_ipv4 {
            match geo_data.get(k4.as_slice()) {
                Some(data) => PrefixExtractor::extract_cidr_csv(data.as_str(), &filter, settings),
                None => PrefixMap::new(),
            }
        } else {
            PrefixMap::new()
        };
        let v6 = if process_ipv6 {
            match geo_data.get(k6.as_slice()) {
                Some(data) => PrefixExtractor::extract_cidr_csv(data.as_str(), &filter, settings),
                None => PrefixMap::new(),
            }
        } else {
            PrefixMap::new()
        };
        assert(filter_ok(settings.country_code@, filter));
        (v4, v6)
    }
}


// ---------------------------------------------------------------------------
// The download cache
// ---------------------------------------------------------------------------

/// When and from where a cached list was fetched.
#[derive(Clone, Debug)]
pub struct GeoCacheMeta {
    pub date: Date,
    pub url: String,
}

/// A manifest line `NAME DATE URL...`: the name, the day and the rest of the
/// words joined by single spaces; lines without a readable date give none.
pub open spec fn manifest_line_entry(l: Seq<char>) -> Option<(Seq<char>, (int, Seq<char>))> {
    let w = words(l);
    if w.len() < 2 {
        None
    } else {
        match civil_parse_ymd(w[1]) {
            None => None,
            Some(d) => Some((w[0], (d, join_with(w.skip(2), seq![' '])))),
        }
    }
}

pub open spec fn manifest_entries(ls: Seq<Seq<char>>) -> Seq<(Seq<char>, (int, Seq<char>))>
    decreases ls.len(),
{
    if ls.len() == 0 {
        seq![]
    } else {
        let init = manifest_entries(ls.drop_last());
        match manifest_line_entry(ls.last()) {
            Some(e) => init.push(e),
            None => init,
        }
    }
}

/// The manifest: name to (day, URL); a name listed twice keeps its last
/// line.
pub open spec fn manifest_of(text: Seq<char>) -> Map<Seq<char>, (int, Seq<char>)> {
    to_assoc(manifest_entries(lines(text)))
}

/// A manifest line as written.
pub open spec fn manifest_line(k: Seq<char>, v: (int, Seq<char>)) -> Seq<char> {
    k + seq![' '] + date_text(v.0) + seq![' '] + v.1
}

pub open spec fn manifest_lines(m: Map<Seq<char>, (int, Seq<char>)>) -> Set<Seq<char>> {
    Set::new(|l: Seq<char>| exists|k: Seq<char>| #[trigger] m.dom().contains(k) && l == manifest_line(k, m[k]))
}

/// The cached list of `family` may be used on `today`: the manifest names
/// it with the URL configured now and the fetch is still current.
pub open spec fn cache_usable(
    manifest: Map<Seq<char>, (int, Seq<char>)>,
    urls: Map<Seq<char>, Seq<char>>,
    family: Seq<char>,
    schedule: crate::schedule::SyncSchedule,
    today: int,
) -> bool {
    &&& manifest.dom().contains(family)
    &&& urls.dom().contains(family)
    &&& manifest[family].1 == urls[family]
    &&& lifecycle_ok(schedule, manifest[family].0, today)
}

impl GeoDataFetcher {
    /// One manifest line; see `manifest_line_entry`.
    pub fn parse_manifest_line(line: &[char]) -> (r: Option<(String, GeoCacheMeta)>)
        ensures
            match r {
                Some((k, m)) => manifest_line_entry(line@) == Some((k@, (m.date@, m.url@))),
                None => manifest_line_entry(line@) is None,
            },
    {
        let w = split_words(line);
        if w.len() < 2 {
            return None;
        }
        let date = match parse_ymd(w[1].as_slice()) {
            Some(d) => d,
            None => {
                return None;
            },
        };
        let mut rest: Vec<Vec<char>> = Vec::new();
        let mut i: usize = 2;
        while i < w.len()
            invariant
                2 <= i <= w.len(),
                views(rest@) == views(w@).subrange(2, i as int),
            decreases w.len() - i,
        {
            let ghost before = views(rest@);
            let piece = crate::text::slice_of(w[i].as_slice(), 0, w[i].len());
            assert(piece@ =~= w@[i as int]@);
            rest.push(piece);
            assert(views(rest@) =~= before.push(w@[i as int]@));
            assert(views(rest@) =~= views(w@).subrange(2, i + 1));
            i += 1;
        }
        assert(views(w@).subrange(2, w.len() as int) == views(w@).skip(2));
        let sp: &[char] = &[' '];
        assert(sp@ =~= seq![' ']);
        let url = join_chars(&rest, sp);
        Some((string_of(w[0].as_slice()), GeoCacheMeta { date, url: string_of(url.as_slice()) }))
    }

    /// The entry of `family` in the manifest's text; see `manifest_of`.
    pub fn manifest_entry(text: &str, family: &str) -> (r: Option<GeoCacheMeta>)
        ensures
            match r {
                Some(m) => manifest_of(text@).dom().contains(family@) && manifest_of(text@)[family@]
                    == (m.date@, m.url@),
                None => !manifest_of(text@).dom().contains(family@),
            },
    {
        let v = chars_of(text);
        let ls = lines_of(v.as_slice());
        let fam = chars_of(family);
        let ghost lv = views(ls@);
        let mut found: Option<GeoCacheMeta> = None;
        let mut i: usize = 0;
        while i < ls.len()
            invariant
                i <= ls.len(),
                lv == views(ls@),
                lv == lines(text@),
                fam@ == family@,
                match found {
                    Some(m) => to_assoc(manifest_entries(lv.take(i as int))).dom().contains(family@)
                        && to_assoc(manifest_entries(lv.take(i as int)))[family@] == (m.date@, m.url@),
                    None => !to_assoc(manifest_entries(lv.take(i as int))).dom().contains(family@),
                },
            decreases ls.len() - i,
        {
            assert(lv.take(i + 1).drop_last() == lv.take(i as int));
            assert(lv.take(i + 1).last() == ls@[i as int]@);
            match GeoDataFetcher::parse_manifest_line(ls[i].as_slice()) {
                Some((k, m)) => {
                    let ghost init = manifest_entries(lv.take(i as int));
                    assert(manifest_entries(lv.take(i + 1)) == init.push((k@, (m.date@, m.url@))));
                    assert(manifest_entries(lv.take(i + 1)).drop_last() == init);
                    if chars_eq(chars_of(k.as_str()).as_slice(), fam.as_slice()) {
                        found = Some(m);
                    }
                },
                None => {},
            }
            i += 1;
        }
        assert(lv.take(ls.len() as int) == lv);
        found
    }

    /// Whether the cached list of `family` may be used on `today`; see
    /// `cache_usable`. Whether the cached file exists is for the caller.
    pub fn cached_geo_ok(settings: &Settings, manifest_text: &str, family: &str, today: Date) -> (r:
        bool)
        requires
            settings.wf(),
        ensures
            r == cache_usable(
                manifest_of(manifest_text@),
                settings.geo_urls@,
                family@,
                settings.sync_schedule,
                today@,
            ),
    {
        let meta = match GeoDataFetcher::manifest_entry(manifest_text, family) {
            Some(m) => m,
            None => {
                return false;
            },
        };
        let want = match settings.geo_urls.get(chars_of(family).as_slice()) {
            Some(u) => u,
            None => {
                return false;
            },
        };
        if !chars_eq(chars_of(meta.url.as_str()).as_slice(), chars_of(want.as_str()).as_slice()) {
            return false;
        }
        settings.sync_schedule.lifecycle_ok(meta.date, today)
    }

    /// The manifest after caching `family` on `today` from `url`: every
    /// entry of the old manifest's text, with `family`'s replaced, one line
    /// each, in `String` order, joined by newlines.
    pub fn updated_manifest(old_text: &str, family: &str, today: Date, url: &str) -> (r: String)
        ensures
            exists|ls: Seq<Seq<char>>|
                #![trigger join_with(ls, seq!['\n'])]
                (forall|a: int, b: int| 0 <= a < b < ls.len() ==> lex_lt(ls[a], ls[b])) && ls.to_set()
                    == manifest_lines(manifest_of(old_text@).insert(family@, (today@, url@)))
                    && r@ == join_with(ls, seq!['\n']),
    {
        let v = chars_of(old_text);
        let ls = lines_of(v.as_slice());
        let ghost lv = views(ls@);
        let mut pairs: Vec<(String, String)> = Vec::new();
        let mut i: usize = 0;
        while i < ls.len()
            invariant
                i <= ls.len(),
                lv == views(ls@),
                lv == lines(old_text@),
                pairs_view(pairs@) == rest_pairs(manifest_entries(lv.take(i as int))),
            decreases ls.len() - i,
        {
            assert(lv.take(i + 1).drop_last() == lv.take(i as int));
            assert(lv.take(i + 1).last() == ls@[i as int]@);
            let ghost before = pairs_view(pairs@);
            match GeoDataFetcher::parse_manifest_line(ls[i].as_slice()) {
                Some((k, m)) => {
                    let rest = GeoDataFetcher::rest_text(&m);
                    let ghost e = (k@, (m.date@, m.url@));
                    let ghost init = manifest_entries(lv.take(i as int));
                    assert(manifest_entries(lv.take(i + 1)) == init.push(e));
                    assert(rest_pairs(init.push(e)) =~= rest_pairs(init).push((e.0, rest_of(e.1))));
                    pairs.push((k, rest));
                    assert(pairs_view(pairs@) =~= before.push((e.0, rest_of(e.1))));
                },
                None => {},
            }
            i += 1;
        }
        assert(lv.take(ls.len() as int) == lv);
        let ghost es = manifest_entries(lv);
        let old_map = PrefixMap::from_pairs(pairs);
        let mut one: Vec<(String, String)> = Vec::new();
        let fresh = GeoCacheMeta { date: today, url: url.to_owned() };
        one.push((family.to_owned(), GeoDataFetcher::rest_text(&fresh)));
        let ghost ov = pairs_view(one@);
        let new_one = PrefixMap::from_pairs(one);
        let merged = PrefixMap::union(&old_map, &new_one);
        proof {
            lemma_rest_pairs(es);
            assert(ov =~= seq![(family@, rest_of((today@, url@)))]);
            assert(ov.drop_last() =~= Seq::<(Seq<char>, Seq<char>)>::empty());
            assert(to_map(ov.drop_last()) == Map::<Seq<char>, Seq<char>>::empty());
            assert(to_map(ov) == to_map(ov.drop_last()).insert(ov.last().0, ov.last().1));
            assert(new_one@ == Map::<Seq<char>, Seq<char>>::empty().insert(family@, rest_of((today@, url@))));
            assert(merged@ =~= rest_map(to_assoc(es).insert(family@, (today@, url@))));
            merged.lemma_view();
        }
        let ghost mp = merged.pairs();
        let n = merged.len();
        let mut line_pairs: Vec<(String, String)> = Vec::new();
        let mut j: usize = 0;
        while j < n
            invariant
                j <= n,
                n == mp.len(),
                mp == merged.pairs(),
                line_pairs@.len() == j,
                forall|q: int| 0 <= q < j ==> #[trigger] pairs_view(line_pairs@)[q] == (
                    mp[q].0 + seq![' '] + mp[q].1,
                    Seq::<char>::empty(),
                ),
            decreases n - j,
        {
            let (k, rest) = merged.entry(j);
            let mut l = chars_of(k.as_str());
            l.push(' ');
            append(&mut l, chars_of(rest.as_str()).as_slice());
            let ghost before = pairs_view(line_pairs@);
            assert(l@ =~= mp[j as int].0 + seq![' '] + mp[j as int].1);
            let e = String::new();
            assert(e@ =~= Seq::<char>::empty());
            line_pairs.push((string_of(l.as_slice()), e));
            assert(pairs_view(line_pairs@) =~= before.push((mp[j as int].0 + seq![' '] + mp[j as int].1, Seq::<char>::empty())));
            j += 1;
        }
        let ghost lp = pairs_view(line_pairs@);
        let sorted = PrefixMap::from_pairs(line_pairs);
        proof {
            sorted.lemma_view();
        }
        let ghost sp = sorted.pairs();
        let m = sorted.len();
        let mut texts: Vec<Vec<char>> = Vec::new();
        let mut t: usize = 0;
        while t < m
            invariant
                t <= m,
                m == sp.len(),
                sp == sorted.pairs(),
                views(texts@) == Seq::new(t as nat, |u: int| sp[u].0),
            decreases m - t,
        {
            let (k, _) = sorted.entry(t);
            let ghost before = views(texts@);
            let kc = chars_of(k.as_str());
            assert(kc@ == sp[t as int].0);
            texts.push(kc);
            assert(views(texts@) =~= before.push(sp[t as int].0));
            assert(views(texts@) =~= Seq::new((t + 1) as nat, |u: int| sp[u].0));
            t += 1;
        }
        let nl: &[char] = &['\n'];
        assert(nl@ =~= seq!['\n']);
        let out = join_chars(&texts, nl);
        proof {
            let keys = Seq::new(m as nat, |u: int| sp[u].0);
            let target = manifest_lines(to_assoc(es).insert(family@, (today@, url@)));
            assert forall|x: Seq<char>| keys.to_set().contains(x) <==> target.contains(x) by {
                lemma_to_map_dom(lp, x);
                if keys.to_set().contains(x) {
                    let u = choose|u: int| 0 <= u < keys.len() && keys[u] == x;
                    assert(sorted@.dom().contains(sp[u].0));
                    let q = choose|q: int| 0 <= q < lp.len() && lp[q].0 == x;
                    let kk = mp[q].0;
                    let mm = to_assoc(es).insert(family@, (today@, url@));
                    assert(merged@.dom().contains(kk));
                    assert(merged@[kk] == mp[q].1);
                    assert(mm.dom().contains(kk));
                    assert(manifest_line(kk, mm[kk]) =~= kk + seq![' '] + rest_of(mm[kk]));
                    assert(x == manifest_line(kk, mm[kk]));
                    assert(target.contains(x));
                }
                if target.contains(x) {
                    let kk = choose|kk: Seq<char>| #[trigger] to_assoc(es).insert(family@, (today@, url@)).dom().contains(kk)
                        && x == manifest_line(kk, to_assoc(es).insert(family@, (today@, url@))[kk]);
                    assert(merged@.dom().contains(kk));
                    let q = choose|q: int| 0 <= q < mp.len() && mp[q].0 == kk;
                    let mm = to_assoc(es).insert(family@, (today@, url@));
                    assert(merged@[kk] == mp[q].1);
                    assert(manifest_line(kk, mm[kk]) =~= kk + seq![' '] + rest_of(mm[kk]));
                    assert(lp[q].0 == x);
                    assert(sorted@.dom().contains(x));
                    let u = choose|u: int| 0 <= u < sp.len() && sp[u].0 == x;
                    assert(keys[u] == x);
                }
            }
            assert(keys.to_set() =~= target);
            assert(views(texts@) == keys);
        }
        string_of(out.as_slice())
    }

    /// `DATE URL` of an entry.
    fn rest_text(m: &GeoCacheMeta) -> (r: String)
        ensures
            r@ == rest_of((m.date@, m.url@)),
    {
        let mut l = m.date.text();
        l.push(' ');
        append(&mut l, chars_of(m.url.as_str()).as_slice());
        string_of(l.as_slice())
    }
}

/// The text after the name on a manifest line.
pub open spec fn rest_of(v: (int, Seq<char>)) -> Seq<char> {
    date_text(v.0) + seq![' '] + v.1
}

pub open spec fn rest_pairs(es: Seq<(Seq<char>, (int, Seq<char>))>) -> Seq<(Seq<char>, Seq<char>)> {
    Seq::new(es.len(), |i: int| (es[i].0, rest_of(es[i].1)))
}

pub open spec fn rest_map(m: Map<Seq<char>, (int, Seq<char>)>) -> Map<Seq<char>, Seq<char>> {
    Map::new(|k: Seq<char>| m.dom().contains(k), |k: Seq<char>| rest_of(m[k]))
}

proof fn lemma_rest_pairs(es: Seq<(Seq<char>, (int, Seq<char>))>)
    ensures
        to_map(rest_pairs(es)) == rest_map(to_assoc(es)),
    decreases es.len(),
{
    if es.len() == 0 {
        assert(rest_map(to_assoc(es)) =~= Map::<Seq<char>, Seq<char>>::empty());
    } else {
        lemma_rest_pairs(es.drop_last());
        assert(rest_pairs(es).drop_last() =~= rest_pairs(es.drop_last()));
        assert(rest_map(to_assoc(es)) =~= rest_map(to_assoc(es.drop_last())).insert(
            es.last().0,
            rest_of(es.last().1),
        ));
    }
}

} // verus!
