//! Run-time settings: command line over config file over built-in defaults,
//! then validated.
use vstd::prelude::*;

use crate::laws::lemma_default_settings;
use crate::country::{country_community, country_numeric, numeric_country, CountryCodeMap};
use crate::net::{ip_family, ip_family_of};
use crate::order::{lex_lt, sort_strings};
use crate::schedule::{parses_to, SyncSchedule};
use crate::strmap::{keys_unique, lemma_to_map_filter, pairs_view, to_map, StrMap};
use crate::text::{
    append, chars_eq, chars_of, concat, contains_chars, decimal, decimal_chars, is_ws, join_chars,
    join_with, parse_uint, parse_uint_chars, split, split_chars, split_once, split_once_chars,
    upper_text, string_of, string_views, to_upper, trim, trim_chars, views, Sep,
};

verus! {

broadcast use vstd::seq_lib::group_seq_properties;

// ---------------------------------------------------------------------------
// IP version
// ---------------------------------------------------------------------------

/// Address families to synchronise.
#[derive(Clone, Copy, PartialEq, Eq, Structural, Debug)]
pub enum IpVersion {
    Ipv4,
    Ipv6,
    Dual,
}

/// The version an upper-cased name selects: `IPV4`, `IPV6`, anything else
/// (including `DUAL`) dual stack.
pub open spec fn ip_version_named(u: Seq<char>) -> IpVersion {
    if u == seq!['I', 'P', 'V', '4'] {
        IpVersion::Ipv4
    } else if u == seq!['I', 'P', 'V', '6'] {
        IpVersion::Ipv6
    } else {
        IpVersion::Dual
    }
}

/// The version a name selects, letter case ignored (Unicode upper case).
pub open spec fn ip_version_of(s: Seq<char>) -> IpVersion {
    ip_version_named(upper_text(s))
}

pub open spec fn ip_version_text(v: IpVersion) -> Seq<char> {
    match v {
        IpVersion::Ipv4 => seq!['i', 'p', 'v', '4'],
        IpVersion::Ipv6 => seq!['i', 'p', 'v', '6'],
        IpVersion::Dual => seq!['d', 'u', 'a', 'l'],
    }
}

impl IpVersion {
    /// The version named by an upper-case name.
    pub fn from_upper(u: &[char]) -> (r: IpVersion)
        ensures
            r == ip_version_named(u@),
    {
        let v4: &[char] = &['I', 'P', 'V', '4'];
        let v6: &[char] = &['I', 'P', 'V', '6'];
        assert(v4@ =~= seq!['I', 'P', 'V', '4']);
        assert(v6@ =~= seq!['I', 'P', 'V', '6']);
        if chars_eq(u, v4) {
            IpVersion::Ipv4
        } else if chars_eq(u, v6) {
            IpVersion::Ipv6
        } else {
            IpVersion::Dual
        }
    }

    /// Parses `ipv4` / `ipv6` / `dual` in any letter case; anything else
    /// means dual stack.
    pub fn from_str(s: &str) -> (r: IpVersion)
        ensures
            r == ip_version_of(s@),
    {
        let v = chars_of(s);
        let u = to_upper(v.as_slice());
        IpVersion::from_upper(u.as_slice())
    }

    pub fn should_process_ipv4(&self) -> (r: bool)
        ensures
            r == (*self == IpVersion::Ipv4 || *self == IpVersion::Dual),
    {
        match self {
            IpVersion::Ipv4 | IpVersion::Dual => true,
            IpVersion::Ipv6 => false,
        }
    }

    pub fn should_process_ipv6(&self) -> (r: bool)
        ensures
            r == (*self == IpVersion::Ipv6 || *self == IpVersion::Dual),
    {
        match self {
            IpVersion::Ipv6 | IpVersion::Dual => true,
            IpVersion::Ipv4 => false,
        }
    }

    /// Lower-case name.
    pub fn as_str(&self) -> (r: &'static str)
        ensures
            r@ == ip_version_text(*self),
    {
        match self {
            IpVersion::Ipv4 => {
                proof {
                    reveal_strlit("ipv4");
                }
                "ipv4"
            },
            IpVersion::Ipv6 => {
                proof {
                    reveal_strlit("ipv6");
                }
                "ipv6"
            },
            IpVersion::Dual => {
                proof {
                    reveal_strlit("dual");
                }
                "dual"
            },
        }
    }
}

// ---------------------------------------------------------------------------
// Sources of settings
// ---------------------------------------------------------------------------

/// `[global]` of the config file.
#[derive(Debug)]
pub struct GlobalConfig {
    pub ip_version: Option<String>,
    pub country_code: Option<String>,
    pub sync_time: Option<String>,
    pub log_file: Option<String>,
    pub snapshot_dir: Option<String>,
    pub community_asn: Option<String>,
    pub concurrency: Option<usize>,
}

/// `[gobgp]` of the config file; the next-hop tables as country / next hop
/// pairs.
#[derive(Debug)]
pub struct GobgpConfig {
    pub config: Option<String>,
    pub api_host: Option<String>,
    pub api_port: Option<u16>,
    pub nexthop_ipv4: Option<String>,
    pub nexthop_ipv6: Option<String>,
    pub community_nexthop_ipv4: Option<Vec<(String, String)>>,
    pub community_nexthop_ipv6: Option<Vec<(String, String)>>,
}

/// `[geo]` of the config file.
#[derive(Debug)]
pub struct GeoConfig {
    pub ipv4_url: Option<String>,
    pub ipv6_url: Option<String>,
}

/// `[dns]` of the config file.
#[derive(Debug)]
pub struct DnsConfig {
    pub domains_file: Option<String>,
    pub interval: Option<String>,
    pub grace: Option<String>,
    pub servers: Option<String>,
}

/// The config file (`[global]`, `[gobgp]`, `[geo]`, `[dns]`).
#[derive(Debug)]
pub struct ConfigFile {
    pub global: Option<GlobalConfig>,
    pub gobgp: Option<GobgpConfig>,
    pub geo: Option<GeoConfig>,
    pub dns: Option<DnsConfig>,
}

/// Arguments of the `install` subcommand.
#[derive(Debug)]
pub struct InstallArgs {
    pub no_start: bool,
}

/// Subcommands.
#[derive(Debug)]
pub enum Commands {
    Install(InstallArgs),
}

/// Options of a sync run given on the command line.
#[derive(Debug)]
pub struct CliArgs {
    pub config: Option<String>,
    pub ip_version: Option<String>,
    pub country_code: Option<String>,
    pub sync_time: Option<String>,
    pub gobgpd_config: Option<String>,
    pub gobgp_api_host: Option<String>,
    pub gobgp_api_port: Option<u16>,
    pub gobgp_nexthop_ipv4: Option<String>,
    pub gobgp_nexthop_ipv6: Option<String>,
    pub community_nexthop_ipv4: Vec<String>,
    pub community_nexthop_ipv6: Vec<String>,
    pub log_file: Option<String>,
    pub snapshot_dir: Option<String>,
    pub community_asn: Option<String>,
    pub geo_url_ipv4: Option<String>,
    pub geo_url_ipv6: Option<String>,
    pub concurrency: Option<usize>,
    pub domains_file: Option<String>,
    pub dns_interval: Option<String>,
    pub dns_servers: Option<String>,
}

/// The command line: a subcommand, or the options of a sync run.
#[derive(Debug)]
pub struct Cli {
    pub command: Option<Commands>,
    pub run: CliArgs,
}

/// Joins the entries of a list-valued setting with `,`.
pub fn join_string_list(items: &Vec<String>) -> (r: String)
    ensures
        r@ == join_with(string_views(items@), seq![',']),
{
    let mut parts: Vec<Vec<char>> = Vec::new();
    let mut i: usize = 0;
    while i < items.len()
        invariant
            i <= items.len(),
            views(parts@) == string_views(items@.take(i as int)),
        decreases items.len() - i,
    {
        let ghost before = views(parts@);
        parts.push(chars_of(items[i].as_str()));
        assert(views(parts@) =~= before.push(items@[i as int]@));
        assert(string_views(items@.take(i + 1)) =~= string_views(items@.take(i as int)).push(items@[i as int]@));
        i += 1;
    }
    assert(items@.take(items.len() as int) == items@);
    let comma: &[char] = &[','];
    assert(comma@ =~= seq![',']);
    let r = join_chars(&parts, comma);
    string_of(r.as_slice())
}

// ---------------------------------------------------------------------------
// Small helpers
// ---------------------------------------------------------------------------

pub open spec fn opt_view(o: Option<String>) -> Option<Seq<char>> {
    match o {
        Some(s) => Some(s@),
        None => None,
    }
}

/// A setting given as text counts when it is not blank; it is trimmed.
pub open spec fn nonempty(o: Option<Seq<char>>) -> Option<Seq<char>> {
    match o {
        Some(s) => if trim(s).len() > 0 {
            Some(trim(s))
        } else {
            None
        },
        None => None,
    }
}

/// The command-line value when given, else the config-file value.
pub open spec fn layered(cli: Option<String>, file: Option<String>) -> Option<Seq<char>> {
    match nonempty(opt_view(cli)) {
        Some(v) => Some(v),
        None => nonempty(opt_view(file)),
    }
}

pub open spec fn or_default(o: Option<Seq<char>>, d: Seq<char>) -> Seq<char> {
    match o {
        Some(v) => v,
        None => d,
    }
}

fn nonempty_exec(value: &Option<String>) -> (r: Option<Vec<char>>)
    ensures
        match r {
            Some(v) => nonempty(opt_view(*value)) == Some(v@),
            None => nonempty(opt_view(*value)) is None,
        },
{
    match value {
        Some(s) => {
            let v = chars_of(s.as_str());
            let t = trim_chars(v.as_slice());
            if t.len() > 0 {
                Some(t)
            } else {
                None
            }
        },
        None => None,
    }
}

fn layered_exec(cli: &Option<String>, file: &Option<String>) -> (r: Option<Vec<char>>)
    ensures
        match r {
            Some(v) => layered(*cli, *file) == Some(v@),
            None => layered(*cli, *file) is None,
        },
{
    match nonempty_exec(cli) {
        Some(v) => Some(v),
        None => nonempty_exec(file),
    }
}

/// `Path::new(dir).join(name)` for a relative `name`: a separator is put
/// between unless `dir` is empty or already ends in one.
pub open spec fn path_join(dir: Seq<char>, name: Seq<char>) -> Seq<char> {
    if dir.len() == 0 {
        name
    } else if dir.last() == '/' {
        dir + name
    } else {
        dir + seq!['/'] + name
    }
}

pub fn path_join_chars(dir: &[char], name: &[char]) -> (r: Vec<char>)
    ensures
        r@ == path_join(dir@, name@),
{
    if dir.len() == 0 {
        concat(dir, name)
    } else if dir[dir.len() - 1] == '/' {
        concat(dir, name)
    } else {
        let slash: &[char] = &['/'];
        let mut v = concat(dir, slash);
        append(&mut v, name);
        v
    }
}

// ---------------------------------------------------------------------------
// Settings model
// ---------------------------------------------------------------------------

pub open spec fn lit_all() -> Seq<char> {
    seq!['A', 'L', 'L']
}

pub open spec fn lit_nonecn() -> Seq<char> {
    seq!['N', 'O', 'N', 'E', 'C', 'N']
}

pub open spec fn lit_cn() -> Seq<char> {
    seq!['C', 'N']
}

/// Country tokens: split at commas and white space, trimmed, upper-cased,
/// blanks dropped.
pub open spec fn country_tokens_of(raw: Seq<char>) -> Seq<Seq<char>> {
    split(raw, Sep::CommaOrWs).map_values(|p: Seq<char>| upper_text(trim(p))).filter(
        |t: Seq<char>| t.len() > 0,
    )
}

/// A token that `country_code` accepts: `ALL`, `NONECN` or a country.
pub open spec fn token_accepted(t: Seq<char>) -> bool {
    t == lit_all() || t == lit_nonecn() || country_numeric(t) is Some
}

/// `out` is what country-code validation makes of `raw`: `ALL` or `NONECN`
/// when given (`ALL` first), else the accepted countries sorted, without
/// repeats, joined by `,`, else `CN`.
pub open spec fn country_code_ok(raw: Seq<char>, out: Seq<char>) -> bool {
    let v = country_tokens_of(raw).filter(|t: Seq<char>| token_accepted(t));
    if v.contains(lit_all()) {
        out == lit_all()
    } else if v.contains(lit_nonecn()) {
        out == lit_nonecn()
    } else if v.len() == 0 {
        out == lit_cn()
    } else {
        exists|codes: Seq<Seq<char>>|
            #![trigger join_with(codes, seq![','])]
            (forall|i: int, j: int| 0 <= i < j < codes.len() ==> lex_lt(codes[i], codes[j]))
                && codes.to_set() == v.to_set() && out == join_with(codes, seq![','])
    }
}

/// `community_asn` when it is a `u32` (trimmed), else `3166`.
pub open spec fn asn_ok(raw: Seq<char>) -> Seq<char> {
    if parse_uint(trim(raw), 0xffff_ffff) is Some {
        trim(raw)
    } else {
        seq!['3', '1', '6', '6']
    }
}

pub open spec fn interval_unit(c: char) -> Option<nat> {
    if c == 's' || c == 'S' {
        Some(1)
    } else if c == 'm' || c == 'M' {
        Some(60)
    } else if c == 'h' || c == 'H' {
        Some(3600)
    } else {
        None
    }
}

pub open spec fn u64_max() -> nat {
    0xffff_ffff_ffff_ffff
}

/// Seconds of a DNS interval: bare seconds, or a number with `s`, `m` or
/// `h` (either case), at least 1; blank or invalid gives 600.
pub open spec fn dns_interval_secs(raw: Seq<char>) -> nat {
    let t = trim(raw);
    if t.len() == 0 {
        600
    } else {
        match parse_uint(t, u64_max()) {
            Some(n) => if n < 1 {
                1
            } else {
                n
            },
            None => match interval_unit(t.last()) {
                None => 600,
                Some(m) => match parse_uint(trim(t.drop_last()), u64_max()) {
                    None => 600,
                    Some(n) => {
                        let secs = if n * m > u64_max() {
                            u64_max()
                        } else {
                            n * m
                        };
                        if secs < 1 {
                            1
                        } else {
                            secs
                        }
                    },
                },
            },
        }
    }
}

/// DNS servers from the tokens: trimmed, IP addresses only, first
/// occurrence kept.
pub open spec fn dns_server_tokens(toks: Seq<Seq<char>>) -> Seq<Seq<char>>
    decreases toks.len(),
{
    if toks.len() == 0 {
        seq![]
    } else {
        let acc = dns_server_tokens(toks.drop_last());
        let t = trim(toks.last());
        if t.len() == 0 || ip_family(t) == 0 || acc.contains(t) {
            acc
        } else {
            acc.push(t)
        }
    }
}

pub open spec fn dns_servers_of(raw: Seq<char>) -> Seq<Seq<char>> {
    dns_server_tokens(split(raw, Sep::CommaOrWs))
}

pub open spec fn default_dns_servers() -> Seq<Seq<char>> {
    seq![
        seq!['2', '2', '3', '.', '5', '.', '5', '.', '5'],
        seq!['1', '1', '9', '.', '2', '9', '.', '2', '9', '.', '2', '9'],
    ]
}

/// Map key of a country given for a next-hop override: its numeric code.
pub open spec fn country_key(country: Seq<char>) -> Option<Seq<char>> {
    match country_numeric(upper_text(trim(country))) {
        Some(n) => Some(decimal(n as nat)),
        None => None,
    }
}

/// The overrides of a config-file table, pair by pair; unknown countries
/// are dropped.
pub open spec fn file_overrides(ps: Seq<(Seq<char>, Seq<char>)>) -> Map<Seq<char>, Seq<char>>
    decreases ps.len(),
{
    if ps.len() == 0 {
        Map::empty()
    } else {
        let m = file_overrides(ps.drop_last());
        match country_key(ps.last().0) {
            Some(k) => m.insert(k, ps.last().1),
            None => m,
        }
    }
}

/// The overrides after `COUNTRY=NEXTHOP` items of the command line.
pub open spec fn cli_overrides(m: Map<Seq<char>, Seq<char>>, items: Seq<Seq<char>>) -> Map<
    Seq<char>,
    Seq<char>,
>
    decreases items.len(),
{
    if items.len() == 0 {
        m
    } else {
        let m2 = cli_overrides(m, items.drop_last());
        match split_once(items.last(), '=') {
            None => m2,
            Some((c, h)) => match country_key(c) {
                Some(k) => m2.insert(k, trim(h)),
                None => m2,
            },
        }
    }
}

/// DNS servers read from tokens are addresses, none twice.
proof fn lemma_dns_server_tokens(toks: Seq<Seq<char>>)
    ensures
        forall|i: int|
            0 <= i < dns_server_tokens(toks).len() ==> ip_family(#[trigger] dns_server_tokens(toks)[i]) != 0,
        forall|i: int, j: int|
            0 <= i < j < dns_server_tokens(toks).len() ==> dns_server_tokens(toks)[i] != dns_server_tokens(
                toks,
            )[j],
    decreases toks.len(),
{
    if toks.len() > 0 {
        lemma_dns_server_tokens(toks.drop_last());
        let acc = dns_server_tokens(toks.drop_last());
        let t = trim(toks.last());
        if !(t.len() == 0 || ip_family(t) == 0 || acc.contains(t)) {
            let r = acc.push(t);
            assert forall|i: int, j: int| 0 <= i < j < r.len() implies r[i] != r[j] by {
                if j == acc.len() {
                    assert(r[i] == acc[i]);
                    assert(acc.contains(acc[i]));
                }
            }
        }
    }
}

/// The DNS servers setting holds at least one address, none twice.
proof fn lemma_dns_servers_setting(args: CliArgs, file: Option<ConfigFile>)
    ensures
        dns_servers_setting(args, file).len() > 0,
        forall|i: int|
            0 <= i < dns_servers_setting(args, file).len() ==> ip_family(
                #[trigger] dns_servers_setting(args, file)[i],
            ) != 0,
        forall|i: int, j: int|
            0 <= i < j < dns_servers_setting(args, file).len() ==> dns_servers_setting(args, file)[i]
                != dns_servers_setting(args, file)[j],
{
    lemma_default_settings();
    let d = default_dns_servers();
    assert(d[0][0] != d[1][0]);
    match layered(args.dns_servers, dns_part(file).servers) {
        Some(v) => {
            lemma_dns_server_tokens(split(v, Sep::CommaOrWs));
        },
        None => {},
    }
}

/// What every loaded setting satisfies: at least one worker, a DNS interval
/// of at least one second, at least one DNS server, each an address and
/// none twice, a `u32` ASN, next hops of their family, overrides with `u16`
/// keys and next hops of their family, the schedule that the sync time
/// parses to, and the snapshot files in the snapshot directory.
pub open spec fn settings_valid(s: Settings) -> bool {
    &&& s.concurrency >= 1
    &&& s.dns_interval_secs >= 1
    &&& s.dns_servers@.len() > 0
    &&& forall|i: int| 0 <= i < s.dns_servers@.len() ==> ip_family(#[trigger] s.dns_servers@[i]@) != 0
    &&& forall|i: int, j: int|
        0 <= i < j < s.dns_servers@.len() ==> s.dns_servers@[i]@ != s.dns_servers@[j]@
    &&& parse_uint(s.community_asn@, 0xffff_ffff) is Some
    &&& ip_family(s.gobgp_nexthop_ipv4@) == 4
    &&& ip_family(s.gobgp_nexthop_ipv6@) == 6
    &&& forall|k: Seq<char>|
        #[trigger] s.community_nexthop_ipv4@.dom().contains(k) ==> override_valid(
            k,
            s.community_nexthop_ipv4@[k],
            false,
        )
    &&& forall|k: Seq<char>|
        #[trigger] s.community_nexthop_ipv6@.dom().contains(k) ==> override_valid(
            k,
            s.community_nexthop_ipv6@[k],
            true,
        )
    &&& parses_to(s.sync_time@, s.sync_schedule)
    &&& s.snapshot_ipv4_file@ == path_join(s.snapshot_dir@, "snapshot_ipv4_routing.prefix"@)
    &&& s.snapshot_ipv6_file@ == path_join(s.snapshot_dir@, "snapshot_ipv6_routing.prefix"@)
    &&& s.snapshot_dns_file@ == path_join(s.snapshot_dir@, "snapshot_dns_routing.prefix"@)
}

/// An override survives validation when its key is a `u16` and its next
/// hop an address of the right family.
pub open spec fn override_valid(k: Seq<char>, v: Seq<char>, is_ipv6: bool) -> bool {
    parse_uint(k, 65535) is Some && ip_family(v) == (if is_ipv6 {
        6int
    } else {
        4int
    })
}

pub open spec fn valid_overrides(m: Map<Seq<char>, Seq<char>>, is_ipv6: bool) -> Map<
    Seq<char>,
    Seq<char>,
> {
    Map::new(|k: Seq<char>| m.dom().contains(k) && override_valid(k, m[k], is_ipv6), |k: Seq<char>| m[k])
}

pub open spec fn file_pairs(o: Option<Vec<(String, String)>>) -> Option<
    Seq<(Seq<char>, Seq<char>)>,
> {
    match o {
        Some(v) => Some(pairs_view(v@)),
        None => None,
    }
}

/// The overrides for one family: the config-file table (if any) then the
/// command-line items, validated.
pub open spec fn overrides_of(
    file: Option<Vec<(String, String)>>,
    cli: Seq<String>,
    is_ipv6: bool,
) -> Map<Seq<char>, Seq<char>> {
    let base = match file_pairs(file) {
        Some(ps) => file_overrides(ps),
        None => Map::empty(),
    };
    valid_overrides(cli_overrides(base, string_views(cli)), is_ipv6)
}

pub open spec fn url_v4_default() -> Seq<char> {
    "https://github.com/sapics/ip-location-db/releases/download/latest/user-country-ipv4-cidr.csv"@
}

pub open spec fn url_v6_default() -> Seq<char> {
    "https://github.com/sapics/ip-location-db/releases/download/latest/user-country-ipv6-cidr.csv"@
}

pub open spec fn key_ipv4() -> Seq<char> {
    "ipv4"@
}

pub open spec fn key_ipv6() -> Seq<char> {
    "ipv6"@
}

// ---------------------------------------------------------------------------
// Settings
// ---------------------------------------------------------------------------

/// Run-time settings.
#[derive(Clone, Debug)]
pub struct Settings {
    pub ip_version: IpVersion,
    pub country_code: String,
    pub sync_time: String,
    pub sync_schedule: SyncSchedule,
    pub gobgpd_config: String,
    pub gobgp_api_host: String,
    pub gobgp_api_port: u16,
    pub gobgp_nexthop_ipv4: String,
    pub gobgp_nexthop_ipv6: String,
    /// Next hop per ISO 3166 numeric code, IPv4.
    pub community_nexthop_ipv4: StrMap,
    /// Next hop per ISO 3166 numeric code, IPv6.
    pub community_nexthop_ipv6: StrMap,
    pub log_file: String,
    pub snapshot_dir: String,
    pub snapshot_ipv4_file: String,
    pub snapshot_ipv6_file: String,
    /// ASN half of the communities: `ASN:numeric`.
    pub community_asn: String,
    pub concurrency: usize,
    pub domains_file: String,
    pub dns_interval: String,
    pub dns_interval_secs: u64,
    /// Upstream recursive DNS servers.
    pub dns_servers: Vec<String>,
    pub snapshot_dns_file: String,
    /// CIDR list URL per family (`ipv4`, `ipv6`).
    pub geo_urls: StrMap,
}

impl Settings {
    /// The maps are well formed and the schedule valid.
    pub open spec fn wf(&self) -> bool {
        &&& self.community_nexthop_ipv4.wf()
        &&& self.community_nexthop_ipv6.wf()
        &&& self.geo_urls.wf()
        &&& self.sync_schedule.wf()
    }

    /// Parses `10m` / `30s` / `1h` / bare seconds; blank or invalid gives
    /// 600.
    pub fn parse_dns_interval(raw: &str) -> (r: u64)
        ensures
            r as nat == dns_interval_secs(raw@),
            r >= 1,
    {
        let v = chars_of(raw);
        let t = trim_chars(v.as_slice());
        if t.len() == 0 {
            return 600;
        }
        if let Some(n) = parse_uint_chars(t.as_slice(), 0xffff_ffff_ffff_ffff) {
            return if n < 1 {
                1
            } else {
                n
            };
        }
        let last = t[t.len() - 1];
        let mult: u64 = if last == 's' || last == 'S' {
            1
        } else if last == 'm' || last == 'M' {
            60
        } else if last == 'h' || last == 'H' {
            3600
        } else {
            return 600;
        };
        let num = crate::text::slice_of(t.as_slice(), 0, t.len() - 1);
        assert(num@ == t@.drop_last());
        let num = trim_chars(num.as_slice());
        let n = match parse_uint_chars(num.as_slice(), 0xffff_ffff_ffff_ffff) {
            Some(n) => n,
            None => {
                return 600;
            },
        };
        let secs: u64 = match n.checked_mul(mult) {
            Some(x) => x,
            None => 0xffff_ffff_ffff_ffff,
        };
        assert(secs as int == if n * mult > u64_max() {
            u64_max() as int
        } else {
            n * mult
        });
        if secs < 1 {
            1
        } else {
            secs
        }
    }

    /// DNS servers from a comma / white-space separated list: IP addresses
    /// only, each once, in order.
    pub fn parse_dns_servers(raw: &str) -> (r: Vec<String>)
        ensures
            string_views(r@) == dns_servers_of(raw@),
    {
        let v = chars_of(raw);
        let toks = split_chars(v.as_slice(), Sep::CommaOrWs);
        let ghost tv = views(toks@);
        let mut out: Vec<Vec<char>> = Vec::new();
        let mut i: usize = 0;
        while i < toks.len()
            invariant
                i <= toks.len(),
                tv == views(toks@),
                tv == split(raw@, Sep::CommaOrWs),
                views(out@) == dns_server_tokens(tv.take(i as int)),
            decreases toks.len() - i,
        {
            assert(tv.take(i + 1).drop_last() == tv.take(i as int));
            assert(tv.take(i + 1).last() == toks@[i as int]@);
            let t = trim_chars(toks[i].as_slice());
            if t.len() > 0 && ip_family_of(t.as_slice()) != 0 && !contains_chars(&out, t.as_slice()) {
                let ghost before = views(out@);
                out.push(t);
                assert(views(out@) =~= before.push(trim(tv[i as int])));
            }
            i += 1;
        }
        assert(tv.take(toks.len() as int) == tv);
        strings_of(&out)
    }

    /// Country tokens of `raw`: split at commas and white space, trimmed,
    /// upper-cased, blanks dropped.
    pub fn split_country_tokens(raw: &[char]) -> (r: Vec<Vec<char>>)
        ensures
            views(r@) == country_tokens_of(raw@),
    {
        let pieces = split_chars(raw, Sep::CommaOrWs);
        let ghost pv = views(pieces@);
        let ghost up = pv.map_values(|p: Seq<char>| upper_text(trim(p)));
        let mut out: Vec<Vec<char>> = Vec::new();
        let mut i: usize = 0;
        while i < pieces.len()
            invariant
                i <= pieces.len(),
                pv == views(pieces@),
                pv == split(raw@, Sep::CommaOrWs),
                up == pv.map_values(|p: Seq<char>| upper_text(trim(p))),
                views(out@) == up.take(i as int).filter(|t: Seq<char>| t.len() > 0),
            decreases pieces.len() - i,
        {
            let t = trim_chars(pieces[i].as_slice());
            let u = to_upper(t.as_slice());
            assert(up.take(i + 1) == up.take(i as int).push(up[i as int]));
            assert(up[i as int] == u@);
            proof { up.take(i as int).lemma_filter_push(up[i as int], |t: Seq<char>| t.len() > 0); }
            if u.len() > 0 {
                let ghost before = views(out@);
                out.push(u);
                assert(views(out@) =~= before.push(up[i as int]));
            }
            i += 1;
        }
        assert(up.take(pieces.len() as int) == up);
        out
    }

    /// The country tokens of `country_code`.
    pub fn country_tokens(&self) -> (r: Vec<String>)
        ensures
            string_views(r@) == country_tokens_of(self.country_code@),
    {
        let v = chars_of(self.country_code.as_str());
        let t = Settings::split_country_tokens(v.as_slice());
        strings_of(&t)
    }

    /// Validated country code: `ALL`, `NONECN`, the accepted countries
    /// sorted and joined by `,`, or `CN` when none is accepted.
    pub fn validated_country_code(raw: &[char]) -> (r: Vec<char>)
        ensures
            country_code_ok(raw@, r@),
    {
        let countries = CountryCodeMap::new();
        let toks = Settings::split_country_tokens(raw);
        let ghost tv = views(toks@);
        let all = lit_all_exec();
        let nonecn = lit_nonecn_exec();
        let mut valid: Vec<Vec<char>> = Vec::new();
        let mut i: usize = 0;
        while i < toks.len()
            invariant
                i <= toks.len(),
                tv == views(toks@),
                all@ == lit_all(),
                nonecn@ == lit_nonecn(),
                views(valid@).no_duplicates(),
                views(valid@).to_set() == tv.take(i as int).filter(
                    |t: Seq<char>| token_accepted(t),
                ).to_set(),
            decreases toks.len() - i,
        {
            let t = &toks[i];
            let ghost f = tv.take(i as int).filter(|t: Seq<char>| token_accepted(t));
            assert(tv.take(i + 1) == tv.take(i as int).push(tv[i as int]));
            proof { tv.take(i as int).lemma_filter_push(tv[i as int], |t: Seq<char>| token_accepted(t)); }
            let acc = chars_eq(t.as_slice(), all.as_slice()) || chars_eq(
                t.as_slice(),
                nonecn.as_slice(),
            ) || countries.contains(t.as_slice());
            assert(acc == token_accepted(tv[i as int]));
            if acc {
                if !contains_chars(&valid, t.as_slice()) {
                    let ghost before = views(valid@);
                    valid.push(t.clone());
                    assert(views(valid@) =~= before.push(t@));
                    proof {
                        before.lemma_push_to_set_commute(t@);
                        f.lemma_push_to_set_commute(t@);
                    }
                    assert(views(valid@).to_set() =~= f.push(t@).to_set());
                } else {
                    assert(views(valid@).to_set().contains(t@));
                    proof {
                        f.lemma_push_to_set_commute(t@);
                    }
                    assert(views(valid@).to_set() =~= f.push(t@).to_set());
                }
            }
            i += 1;
        }
        assert(tv.take(toks.len() as int) == tv);
        let ghost v = tv.filter(|t: Seq<char>| token_accepted(t));
        assert(views(valid@).to_set() == v.to_set());
        if contains_chars(&valid, all.as_slice()) {
            assert(v.contains(lit_all()) == v.to_set().contains(lit_all()));
            return all;
        }
        assert(v.contains(lit_all()) == v.to_set().contains(lit_all()));
        if contains_chars(&valid, nonecn.as_slice()) {
            assert(v.contains(lit_nonecn()) == v.to_set().contains(lit_nonecn()));
            return nonecn;
        }
        assert(v.contains(lit_nonecn()) == v.to_set().contains(lit_nonecn()));
        if valid.len() == 0 {
            assert(v.len() == 0) by {
                if v.len() > 0 {
                    assert(v.to_set().contains(v[0]));
                }
            }
            let cn: Vec<char> = vec!['C', 'N'];
            assert(cn@ == lit_cn());
            return cn;
        }
        assert(v.len() > 0) by {
            assert(views(valid@).to_set().contains(views(valid@)[0]));
        }
        let sorted = sort_strings(valid);
        let comma: &[char] = &[','];
        assert(comma@ =~= seq![',']);
        let r = join_chars(&sorted, comma);
        proof {
            let codes = views(sorted@);
            assert(forall|i: int, j: int| 0 <= i < j < codes.len() ==> lex_lt(codes[i], codes[j]));
            assert(codes.to_set() == v.to_set());
            assert(r@ == join_with(codes, seq![',']));
        }
        r
    }

    /// `country_code` is `ALL`.
    pub fn is_all(&self) -> (r: bool)
        ensures
            r == (self.country_code@ == lit_all()),
    {
        let v = chars_of(self.country_code.as_str());
        let all = lit_all_exec();
        chars_eq(v.as_slice(), all.as_slice())
    }

    /// `country_code` is `NONECN`.
    pub fn should_filter_cn(&self) -> (r: bool)
        ensures
            r == (self.country_code@ == lit_nonecn()),
    {
        let v = chars_of(self.country_code.as_str());
        let n = lit_nonecn_exec();
        chars_eq(v.as_slice(), n.as_slice())
    }

    /// The countries named by `country_code` (not `ALL`, not `NONECN`).
    pub fn selected_countries(&self) -> (r: Vec<String>)
        ensures
            string_views(r@) == country_tokens_of(self.country_code@).filter(
                |t: Seq<char>| selected(t),
            ),
    {
        let countries = CountryCodeMap::new();
        let v = chars_of(self.country_code.as_str());
        let toks = Settings::split_country_tokens(v.as_slice());
        let ghost tv = views(toks@);
        let all = lit_all_exec();
        let nonecn = lit_nonecn_exec();
        let mut out: Vec<Vec<char>> = Vec::new();
        let mut i: usize = 0;
        while i < toks.len()
            invariant
                i <= toks.len(),
                tv == views(toks@),
                all@ == lit_all(),
                nonecn@ == lit_nonecn(),
                views(out@) == tv.take(i as int).filter(|t: Seq<char>| selected(t)),
            decreases toks.len() - i,
        {
            let t = &toks[i];
            assert(tv.take(i + 1) == tv.take(i as int).push(tv[i as int]));
            proof { tv.take(i as int).lemma_filter_push(tv[i as int], |t: Seq<char>| selected(t)); }
            if !chars_eq(t.as_slice(), all.as_slice()) && !chars_eq(t.as_slice(), nonecn.as_slice())
                && countries.contains(t.as_slice()) {
                let ghost before = views(out@);
                out.push(t.clone());
                assert(views(out@) =~= before.push(t@));
            }
            i += 1;
        }
        assert(tv.take(toks.len() as int) == tv);
        strings_of(&out)
    }

    /// `http://host:port` of the GoBGP API.
    pub fn gobgp_api_addr(&self) -> (r: String)
        ensures
            r@ == seq!['h', 't', 't', 'p', ':', '/', '/'] + self.gobgp_api_host@ + seq![':']
                + decimal(self.gobgp_api_port as nat),
    {
        let scheme: &[char] = &['h', 't', 't', 'p', ':', '/', '/'];
        assert(scheme@ =~= seq!['h', 't', 't', 'p', ':', '/', '/']);
        let mut v = concat(scheme, chars_of(self.gobgp_api_host.as_str()).as_slice());
        let colon: &[char] = &[':'];
        assert(colon@ =~= seq![':']);
        append(&mut v, colon);
        append(&mut v, decimal_chars(self.gobgp_api_port as u64).as_slice());
        string_of(v.as_slice())
    }

    /// Next hop for a route with `community`: the override of its numeric
    /// country code (the part after `:`), else the default of the family.
    pub fn next_hop_for_community(&self, community: &str, is_ipv6: bool) -> (r: String)
        requires
            self.wf(),
        ensures
            r@ == next_hop_for(
                if is_ipv6 {
                    self.community_nexthop_ipv6@
                } else {
                    self.community_nexthop_ipv4@
                },
                if is_ipv6 {
                    self.gobgp_nexthop_ipv6@
                } else {
                    self.gobgp_nexthop_ipv4@
                },
                community@,
            ),
    {
        let c = chars_of(community);
        let code = match split_once_chars(c.as_slice(), ':') {
            Some((_, code)) => code,
            None => Vec::new(),
        };
        let overrides = if is_ipv6 {
            &self.community_nexthop_ipv6
        } else {
            &self.community_nexthop_ipv4
        };
        if let Some(nh) = overrides.get(code.as_slice()) {
            return nh.clone();
        }
        if is_ipv6 {
            self.gobgp_nexthop_ipv6.clone()
        } else {
            self.gobgp_nexthop_ipv4.clone()
        }
    }

    /// `ASN:ASN`, the community used when no country code applies.
    pub fn fallback_community(&self) -> (r: String)
        ensures
            r@ == fallback_of(self.community_asn@),
    {
        let a = chars_of(self.community_asn.as_str());
        let colon: &[char] = &[':'];
        assert(colon@ =~= seq![':']);
        let mut v = concat(a.as_slice(), colon);
        append(&mut v, a.as_slice());
        string_of(v.as_slice())
    }

    /// Community of a country: `ASN:numeric`, or `ASN:ASN` for an unknown
    /// country.
    pub fn community_for_country(&self, country: &str) -> (r: Option<String>)
        ensures
            r == Some(r->0),
            r->0@ == community_for(country@, self.community_asn@),
    {
        let c = chars_of(country);
        let a = chars_of(self.community_asn.as_str());
        match CountryCodeMap::new().community(c.as_slice(), a.as_slice()) {
            Some(v) => Some(string_of(v.as_slice())),
            None => Some(self.fallback_community()),
        }
    }

    /// Community of a snapshot entry under the current ASN: the numeric
    /// code after `:` of the old community, when it names a country, else
    /// `ASN:ASN`.
    pub fn community_from_old(&self, old_community: &str) -> (r: String)
        ensures
            r@ == community_from_old_of(old_community@, self.community_asn@),
    {
        let c = chars_of(old_community);
        let value = match split_once_chars(c.as_slice(), ':') {
            Some((_, v)) => v,
            None => {
                return self.fallback_community();
            },
        };
        let t = trim_chars(value.as_slice());
        let n = match parse_uint_chars(t.as_slice(), 65535) {
            Some(n) => n as u16,
            None => {
                return self.fallback_community();
            },
        };
        match CountryCodeMap::new().country_for_numeric(n) {
            Some(country) => {
                let s = string_of(country.as_slice());
                match self.community_for_country(s.as_str()) {
                    Some(x) => x,
                    None => self.fallback_community(),
                }
            },
            None => self.fallback_community(),
        }
    }

    /// Numeric code (as text) of a country given by name, trimmed and
    /// upper-cased.
    pub fn country_to_numeric_code(country: &[char]) -> (r: Option<Vec<char>>)
        ensures
            match r {
                Some(v) => country_key(country@) == Some(v@),
                None => country_key(country@) is None,
            },
    {
        let t = trim_chars(country);
        let u = to_upper(t.as_slice());
        match CountryCodeMap::new().get(u.as_slice()) {
            Some(n) => Some(decimal_chars(n as u64)),
            None => None,
        }
    }

    /// `COUNTRY=NEXTHOP` as (numeric code, trimmed next hop).
    pub fn parse_country_next_hop(item: &str) -> (r: Option<(String, String)>)
        ensures
            match r {
                Some((k, h)) => split_once(item@, '=') matches Some((c, hh)) && country_key(c)
                    == Some(k@) && h@ == trim(hh),
                None => match split_once(item@, '=') {
                    Some((c, _)) => country_key(c) is None,
                    None => true,
                },
            },
    {
        let v = chars_of(item);
        let (country, next_hop) = match split_once_chars(v.as_slice(), '=') {
            Some(x) => x,
            None => {
                return None;
            },
        };
        match Settings::country_to_numeric_code(country.as_slice()) {
            Some(code) => Some(
                (string_of(code.as_slice()), string_of(trim_chars(next_hop.as_slice()).as_slice())),
            ),
            None => None,
        }
    }
}

pub open spec fn selected(t: Seq<char>) -> bool {
    t != lit_all() && t != lit_nonecn() && country_numeric(t) is Some
}

/// `ASN:ASN`.
pub open spec fn fallback_of(asn: Seq<char>) -> Seq<char> {
    asn + seq![':'] + asn
}

pub open spec fn community_for(country: Seq<char>, asn: Seq<char>) -> Seq<char> {
    match country_community(country, asn) {
        Some(c) => c,
        None => fallback_of(asn),
    }
}

pub open spec fn community_from_old_of(old: Seq<char>, asn: Seq<char>) -> Seq<char> {
    match split_once(old, ':') {
        None => fallback_of(asn),
        Some((_, v)) => match parse_uint(trim(v), 65535) {
            None => fallback_of(asn),
            Some(n) => match numeric_country(n as u16) {
                Some(c) => community_for(c, asn),
                None => fallback_of(asn),
            },
        },
    }
}

/// The override of the numeric code after `:` in `community`, else `dflt`.
pub open spec fn next_hop_for(
    overrides: Map<Seq<char>, Seq<char>>,
    dflt: Seq<char>,
    community: Seq<char>,
) -> Seq<char> {
    let code = match split_once(community, ':') {
        Some((_, c)) => c,
        None => seq![],
    };
    if overrides.dom().contains(code) {
        overrides[code]
    } else {
        dflt
    }
}

fn lit_all_exec() -> (r: Vec<char>)
    ensures
        r@ == lit_all(),
{
    vec!['A', 'L', 'L']
}

fn lit_nonecn_exec() -> (r: Vec<char>)
    ensures
        r@ == lit_nonecn(),
{
    vec!['N', 'O', 'N', 'E', 'C', 'N']
}

/// The strings holding the character vectors `v`.
pub fn strings_of(v: &Vec<Vec<char>>) -> (r: Vec<String>)
    ensures
        string_views(r@) == views(v@),
{
    let mut r: Vec<String> = Vec::new();
    let mut i: usize = 0;
    while i < v.len()
        invariant
            i <= v.len(),
            string_views(r@) == views(v@).take(i as int),
        decreases v.len() - i,
    {
        let ghost before = r@;
        r.push(string_of(v[i].as_slice()));
        assert(string_views(r@) =~= string_views(before).push(v@[i as int]@));
        assert(views(v@).take(i + 1) =~= views(v@).take(i as int).push(v@[i as int]@));
        i += 1;
    }
    assert(views(v@).take(v.len() as int) == views(v@));
    r
}


// ---------------------------------------------------------------------------
// Validation of single settings
// ---------------------------------------------------------------------------

/// A default next hop kept when it is an address of its family, else the
/// unspecified address (`0.0.0.0` / `::`).
pub open spec fn next_hop_ok(raw: Seq<char>, is_ipv6: bool) -> Seq<char> {
    if is_ipv6 {
        if ip_family(raw) == 6 {
            raw
        } else {
            "::"@
        }
    } else {
        if ip_family(raw) == 4 {
            raw
        } else {
            "0.0.0.0"@
        }
    }
}

/// `keep` of the override validation, on (code, next hop) pairs.
pub open spec fn keep_override(is_ipv6: bool) -> spec_fn((Seq<char>, Seq<char>)) -> bool {
    |p: (Seq<char>, Seq<char>)| override_valid(p.0, p.1, is_ipv6)
}

/// `community_asn` kept (trimmed) when it is a `u32`, else `3166`.
pub fn validated_community_asn(raw: &[char]) -> (r: Vec<char>)
    ensures
        r@ == asn_ok(raw@),
{
    let t = trim_chars(raw);
    if parse_uint_chars(t.as_slice(), 0xffff_ffff).is_some() {
        t
    } else {
        let d = chars_of("3166");
        proof {
            reveal_strlit("3166");
        }
        assert(d@ =~= seq!['3', '1', '6', '6']);
        d
    }
}

/// A default next hop, validated for its family.
pub fn validated_next_hop(raw: &[char], is_ipv6: bool) -> (r: Vec<char>)
    ensures
        r@ == next_hop_ok(raw@, is_ipv6),
{
    let fam = ip_family_of(raw);
    if is_ipv6 {
        if fam == 6 {
            crate::text::slice_of(raw, 0, raw.len())
        } else {
            chars_of("::")
        }
    } else {
        if fam == 4 {
            crate::text::slice_of(raw, 0, raw.len())
        } else {
            chars_of("0.0.0.0")
        }
    }
}

impl Settings {
    /// Drops the overrides whose key is not a `u16` or whose next hop is not
    /// an address of the family.
    pub fn validate_community_next_hops(overrides: &mut StrMap, is_ipv6: bool)
        requires
            old(overrides).wf(),
        ensures
            final(overrides).wf(),
            final(overrides)@ == valid_overrides(old(overrides)@, is_ipv6),
    {
        proof {
            overrides.lemma_view();
        }
        let ghost ps = overrides.pairs();
        let ghost keep = keep_override(is_ipv6);
        let mut out = StrMap::new();
        let n = overrides.len();
        let mut i: usize = 0;
        while i < n
            invariant
                i <= n,
                n == ps.len(),
                ps == overrides.pairs(),
                keep == keep_override(is_ipv6),
                out.wf(),
                out@ == to_map(ps.take(i as int).filter(keep)),
            decreases n - i,
        {
            let (k, v) = overrides.entry(i);
            let kc = chars_of(k.as_str());
            let vc = chars_of(v.as_str());
            let fam: u8 = if is_ipv6 {
                6
            } else {
                4
            };
            let ok = parse_uint_chars(kc.as_slice(), 65535).is_some() && ip_family_of(vc.as_slice())
                == fam;
            assert(ok == keep(ps[i as int]));
            assert(ps.take(i + 1) == ps.take(i as int).push(ps[i as int]));
            proof {
                ps.take(i as int).lemma_filter_push(ps[i as int], keep);
            }
            if ok {
                let ghost f = ps.take(i as int).filter(keep);
                out.insert(kc.as_slice(), vc.as_slice());
                assert(f.push(ps[i as int]).drop_last() == f);
            }
            i += 1;
        }
        assert(ps.take(n as int) == ps);
        proof {
            lemma_to_map_filter(ps, keep);
            assert(out@ =~= valid_overrides(overrides@, is_ipv6));
        }
        *overrides = out;
    }

    /// The overrides of a config-file table of (country, next hop) pairs,
    /// keyed by numeric country code; unknown countries are dropped.
    pub fn convert_country_next_hop_map(table: &Vec<(String, String)>) -> (r: StrMap)
        ensures
            r.wf(),
            r@ == file_overrides(pairs_view(table@)),
    {
        let ghost ps = pairs_view(table@);
        let mut m = StrMap::new();
        let mut i: usize = 0;
        while i < table.len()
            invariant
                i <= table.len(),
                ps == pairs_view(table@),
                m.wf(),
                m@ == file_overrides(ps.take(i as int)),
            decreases table.len() - i,
        {
            assert(ps.take(i + 1).drop_last() == ps.take(i as int));
            assert(ps.take(i + 1).last() == ps[i as int]);
            let c = chars_of(table[i].0.as_str());
            if let Some(code) = Settings::country_to_numeric_code(c.as_slice()) {
                let h = chars_of(table[i].1.as_str());
                m.insert(code.as_slice(), h.as_slice());
            }
            i += 1;
        }
        assert(ps.take(table.len() as int) == ps);
        m
    }

    /// The overrides for one family: the config-file table when given, the
    /// `COUNTRY=NEXTHOP` items of the command line over it, validated.
    pub fn build_overrides(table: &Option<Vec<(String, String)>>, items: &Vec<String>, is_ipv6: bool) -> (r: StrMap)
        ensures
            r.wf(),
            r@ == overrides_of(*table, items@, is_ipv6),
    {
        let mut m = match table {
            Some(t) => Settings::convert_country_next_hop_map(t),
            None => StrMap::new(),
        };
        let ghost base = m@;
        let ghost iv = string_views(items@);
        let mut i: usize = 0;
        while i < items.len()
            invariant
                i <= items.len(),
                iv == string_views(items@),
                m.wf(),
                m@ == cli_overrides(base, iv.take(i as int)),
            decreases items.len() - i,
        {
            assert(iv.take(i + 1).drop_last() == iv.take(i as int));
            assert(iv.take(i + 1).last() == items@[i as int]@);
            if let Some((k, h)) = Settings::parse_country_next_hop(items[i].as_str()) {
                let kc = chars_of(k.as_str());
                let hc = chars_of(h.as_str());
                m.insert(kc.as_slice(), hc.as_slice());
            }
            i += 1;
        }
        assert(iv.take(items.len() as int) == iv);
        Settings::validate_community_next_hops(&mut m, is_ipv6);
        m
    }

    /// The CIDR list URLs built in: `ipv4` and `ipv6` of the user-country
    /// lists of ip-location-db.
    pub fn default_geo_urls() -> (r: StrMap)
        ensures
            r.wf(),
            r@ == map![key_ipv4() => url_v4_default(), key_ipv6() => url_v6_default()],
    {
        let mut m = StrMap::new();
        let k4 = chars_of("ipv4");
        let v4 = chars_of(
            "https://github.com/sapics/ip-location-db/releases/download/latest/user-country-ipv4-cidr.csv",
        );
        m.insert(k4.as_slice(), v4.as_slice());
        let k6 = chars_of("ipv6");
        let v6 = chars_of(
            "https://github.com/sapics/ip-location-db/releases/download/latest/user-country-ipv6-cidr.csv",
        );
        m.insert(k6.as_slice(), v6.as_slice());
        m
    }
}


// ---------------------------------------------------------------------------
// Settings from their sources
// ---------------------------------------------------------------------------

pub open spec fn empty_global() -> GlobalConfig {
    GlobalConfig {
        ip_version: None,
        country_code: None,
        sync_time: None,
        log_file: None,
        snapshot_dir: None,
        community_asn: None,
        concurrency: None,
    }
}

pub open spec fn empty_gobgp() -> GobgpConfig {
    GobgpConfig {
        config: None,
        api_host: None,
        api_port: None,
        nexthop_ipv4: None,
        nexthop_ipv6: None,
        community_nexthop_ipv4: None,
        community_nexthop_ipv6: None,
    }
}

pub open spec fn empty_geo() -> GeoConfig {
    GeoConfig { ipv4_url: None, ipv6_url: None }
}

pub open spec fn empty_dns() -> DnsConfig {
    DnsConfig { domains_file: None, interval: None, grace: None, servers: None }
}

/// `[global]` of the config file; a missing file or section gives nothing.
pub open spec fn global_part(file: Option<ConfigFile>) -> GlobalConfig {
    match file {
        Some(f) => match f.global {
            Some(g) => g,
            None => empty_global(),
        },
        None => empty_global(),
    }
}

pub open spec fn gobgp_part(file: Option<ConfigFile>) -> GobgpConfig {
    match file {
        Some(f) => match f.gobgp {
            Some(g) => g,
            None => empty_gobgp(),
        },
        None => empty_gobgp(),
    }
}

pub open spec fn geo_part(file: Option<ConfigFile>) -> GeoConfig {
    match file {
        Some(f) => match f.geo {
            Some(g) => g,
            None => empty_geo(),
        },
        None => empty_geo(),
    }
}

pub open spec fn dns_part(file: Option<ConfigFile>) -> DnsConfig {
    match file {
        Some(f) => match f.dns {
            Some(g) => g,
            None => empty_dns(),
        },
        None => empty_dns(),
    }
}

/// A text setting: command line, else config file, else `dflt`.
pub open spec fn text_setting(cli: Option<String>, file: Option<String>, dflt: Seq<char>) -> Seq<
    char,
> {
    or_default(layered(cli, file), dflt)
}

/// A count that only a positive value overrides.
pub open spec fn positive_or(o: Option<usize>, dflt: nat) -> nat {
    match o {
        Some(v) => if v > 0 {
            v as nat
        } else {
            dflt
        },
        None => dflt,
    }
}

/// `country_code` before validation: the layered value upper-cased, else
/// `CN`.
pub open spec fn country_raw(args: CliArgs, file: Option<ConfigFile>) -> Seq<char> {
    match layered(args.country_code, global_part(file).country_code) {
        Some(v) => upper_text(v),
        None => lit_cn(),
    }
}

/// The DNS servers: those of the layered list, or the built-in pair when
/// none is given or none is valid.
pub open spec fn dns_servers_setting(args: CliArgs, file: Option<ConfigFile>) -> Seq<Seq<char>> {
    match layered(args.dns_servers, dns_part(file).servers) {
        Some(v) => if dns_servers_of(v).len() > 0 {
            dns_servers_of(v)
        } else {
            default_dns_servers()
        },
        None => default_dns_servers(),
    }
}

fn text_setting_exec(cli: &Option<String>, file: &Option<String>, dflt: &str) -> (r: String)
    ensures
        r@ == text_setting(*cli, *file, dflt@),
{
    match layered_exec(cli, file) {
        Some(v) => string_of(v.as_slice()),
        None => dflt.to_owned(),
    }
}

fn positive_or_exec(o: Option<usize>, dflt: usize) -> (r: usize)
    ensures
        r as nat == positive_or(o, dflt as nat),
{
    match o {
        Some(v) => if v > 0 {
            v
        } else {
            dflt
        },
        None => dflt,
    }
}

fn default_dns_servers_exec() -> (r: Vec<String>)
    ensures
        string_views(r@) == default_dns_servers(),
{
    let a = chars_of("223.5.5.5");
    let b = chars_of("119.29.29.29");
    proof {
        reveal_strlit("223.5.5.5");
        reveal_strlit("119.29.29.29");
    }
    assert(a@ =~= default_dns_servers()[0]);
    assert(b@ =~= default_dns_servers()[1]);
    let mut r: Vec<String> = Vec::new();
    r.push(string_of(a.as_slice()));
    r.push(string_of(b.as_slice()));
    assert(r@[0]@ == a@ && r@[1]@ == b@);
    assert(string_views(r@) =~= default_dns_servers());
    r
}

impl Settings {
    /// Settings from the command line and the config file (none when the
    /// file is absent): the command line over the file over the built-in
    /// defaults, then validated.
    pub fn from_sources(args: &CliArgs, file: &Option<ConfigFile>) -> (r: Settings)
        ensures
            r.wf(),
            r.ip_version == match layered(args.ip_version, global_part(*file).ip_version) {
                Some(v) => ip_version_of(v),
                None => IpVersion::Dual,
            },
            country_code_ok(country_raw(*args, *file), r.country_code@),
            r.sync_time@ == text_setting(args.sync_time, global_part(*file).sync_time, "02:00"@),
            parses_to(r.sync_time@, r.sync_schedule),
            r.gobgpd_config@ == text_setting(
                args.gobgpd_config,
                gobgp_part(*file).config,
                "config/gobgpd.conf"@,
            ),
            r.gobgp_api_host@ == text_setting(
                args.gobgp_api_host,
                gobgp_part(*file).api_host,
                "127.0.0.1"@,
            ),
            r.gobgp_api_port == match args.gobgp_api_port {
                Some(p) => p,
                None => match gobgp_part(*file).api_port {
                    Some(p) => p,
                    None => 50051u16,
                },
            },
            r.gobgp_nexthop_ipv4@ == next_hop_ok(
                text_setting(args.gobgp_nexthop_ipv4, gobgp_part(*file).nexthop_ipv4, "0.0.0.0"@),
                false,
            ),
            r.gobgp_nexthop_ipv6@ == next_hop_ok(
                text_setting(args.gobgp_nexthop_ipv6, gobgp_part(*file).nexthop_ipv6, "::"@),
                true,
            ),
            r.community_nexthop_ipv4@ == overrides_of(
                gobgp_part(*file).community_nexthop_ipv4,
                args.community_nexthop_ipv4@,
                false,
            ),
            r.community_nexthop_ipv6@ == overrides_of(
                gobgp_part(*file).community_nexthop_ipv6,
                args.community_nexthop_ipv6@,
                true,
            ),
            r.log_file@ == text_setting(
                args.log_file,
                global_part(*file).log_file,
                "logs/gobgp_sync.log"@,
            ),
            r.snapshot_dir@ == text_setting(
                args.snapshot_dir,
                global_part(*file).snapshot_dir,
                "snapshot"@,
            ),
            r.community_asn@ == asn_ok(
                text_setting(args.community_asn, global_part(*file).community_asn, "3166"@),
            ),
            r.concurrency as nat == positive_or(
                args.concurrency,
                positive_or(global_part(*file).concurrency, 100),
            ),
            r.domains_file@ == text_setting(
                args.domains_file,
                dns_part(*file).domains_file,
                "config/domains.txt"@,
            ),
            r.dns_interval@ == text_setting(args.dns_interval, dns_part(*file).interval, "10m"@),
            r.dns_interval_secs as nat == dns_interval_secs(r.dns_interval@),
            string_views(r.dns_servers@) == dns_servers_setting(*args, *file),
            r.geo_urls@ == map![
                key_ipv4() => text_setting(args.geo_url_ipv4, geo_part(*file).ipv4_url, url_v4_default()),
                key_ipv6() => text_setting(args.geo_url_ipv6, geo_part(*file).ipv6_url, url_v6_default()),
            ],
            r.snapshot_ipv4_file@ == path_join(r.snapshot_dir@, "snapshot_ipv4_routing.prefix"@),
            r.snapshot_ipv6_file@ == path_join(r.snapshot_dir@, "snapshot_ipv6_routing.prefix"@),
            r.snapshot_dns_file@ == path_join(r.snapshot_dir@, "snapshot_dns_routing.prefix"@),
            settings_valid(r),
    {
        let eg = GlobalConfig {
            ip_version: None,
            country_code: None,
            sync_time: None,
            log_file: None,
            snapshot_dir: None,
            community_asn: None,
            concurrency: None,
        };
        let eb = GobgpConfig {
            config: None,
            api_host: None,
            api_port: None,
            nexthop_ipv4: None,
            nexthop_ipv6: None,
            community_nexthop_ipv4: None,
            community_nexthop_ipv6: None,
        };
        let eo = GeoConfig { ipv4_url: None, ipv6_url: None };
        let ed = DnsConfig { domains_file: None, interval: None, grace: None, servers: None };
        let g: &GlobalConfig = match file {
            Some(f) => match &f.global {
                Some(x) => x,
                None => &eg,
            },
            None => &eg,
        };
        let gb: &GobgpConfig = match file {
            Some(f) => match &f.gobgp {
                Some(x) => x,
                None => &eb,
            },
            None => &eb,
        };
        let geo: &GeoConfig = match file {
            Some(f) => match &f.geo {
                Some(x) => x,
                None => &eo,
            },
            None => &eo,
        };
        let dns: &DnsConfig = match file {
            Some(f) => match &f.dns {
                Some(x) => x,
                None => &ed,
            },
            None => &ed,
        };
        assert(*g == global_part(*file));
        assert(*gb == gobgp_part(*file));
        assert(*geo == geo_part(*file));
        assert(*dns == dns_part(*file));

        let ip_version = match layered_exec(&args.ip_version, &g.ip_version) {
            Some(v) => IpVersion::from_upper(to_upper(v.as_slice()).as_slice()),
            None => IpVersion::Dual,
        };
        let raw_code = match layered_exec(&args.country_code, &g.country_code) {
            Some(v) => to_upper(v.as_slice()),
            None => {
                let cn = chars_of("CN");
                proof {
                    reveal_strlit("CN");
                }
                assert(cn@ =~= lit_cn());
                cn
            },
        };
        let country_code = string_of(Settings::validated_country_code(raw_code.as_slice()).as_slice());
        let sync_time = text_setting_exec(&args.sync_time, &g.sync_time, "02:00");
        let sync_schedule = SyncSchedule::parse(sync_time.as_str());
        let gobgpd_config = text_setting_exec(&args.gobgpd_config, &gb.config, "config/gobgpd.conf");
        let gobgp_api_host = text_setting_exec(&args.gobgp_api_host, &gb.api_host, "127.0.0.1");
        let gobgp_api_port: u16 = match args.gobgp_api_port {
            Some(p) => p,
            None => match gb.api_port {
                Some(p) => p,
                None => 50051,
            },
        };
        let nh4 = text_setting_exec(&args.gobgp_nexthop_ipv4, &gb.nexthop_ipv4, "0.0.0.0");
        let gobgp_nexthop_ipv4 = string_of(
            validated_next_hop(chars_of(nh4.as_str()).as_slice(), false).as_slice(),
        );
        let nh6 = text_setting_exec(&args.gobgp_nexthop_ipv6, &gb.nexthop_ipv6, "::");
        let gobgp_nexthop_ipv6 = string_of(
            validated_next_hop(chars_of(nh6.as_str()).as_slice(), true).as_slice(),
        );
        let community_nexthop_ipv4 = Settings::build_overrides(
            &gb.community_nexthop_ipv4,
            &args.community_nexthop_ipv4,
            false,
        );
        let community_nexthop_ipv6 = Settings::build_overrides(
            &gb.community_nexthop_ipv6,
            &args.community_nexthop_ipv6,
            true,
        );
        let log_file = text_setting_exec(&args.log_file, &g.log_file, "logs/gobgp_sync.log");
        let snapshot_dir = text_setting_exec(&args.snapshot_dir, &g.snapshot_dir, "snapshot");
        let asn = text_setting_exec(&args.community_asn, &g.community_asn, "3166");
        let community_asn = string_of(
            validated_community_asn(chars_of(asn.as_str()).as_slice()).as_slice(),
        );
        let concurrency = positive_or_exec(args.concurrency, positive_or_exec(g.concurrency, 100));
        let domains_file = text_setting_exec(&args.domains_file, &dns.domains_file, "config/domains.txt");
        let dns_interval = text_setting_exec(&args.dns_interval, &dns.interval, "10m");
        let dns_interval_secs = Settings::parse_dns_interval(dns_interval.as_str());
        let dns_servers = match layered_exec(&args.dns_servers, &dns.servers) {
            Some(v) => {
                let parsed = Settings::parse_dns_servers(string_of(v.as_slice()).as_str());
                if parsed.len() > 0 {
                    parsed
                } else {
                    default_dns_servers_exec()
                }
            },
            None => default_dns_servers_exec(),
        };
        let mut geo_urls = Settings::default_geo_urls();
        proof {
            reveal_strlit("ipv4");
            reveal_strlit("ipv6");
            assert(key_ipv4()[3] != key_ipv6()[3]);
        }
        if let Some(v) = layered_exec(&args.geo_url_ipv4, &geo.ipv4_url) {
            geo_urls.insert(chars_of("ipv4").as_slice(), v.as_slice());
        }
        if let Some(v) = layered_exec(&args.geo_url_ipv6, &geo.ipv6_url) {
            geo_urls.insert(chars_of("ipv6").as_slice(), v.as_slice());
        }
        assert(geo_urls@ =~= map![
            key_ipv4() => text_setting(args.geo_url_ipv4, geo_part(*file).ipv4_url, url_v4_default()),
            key_ipv6() => text_setting(args.geo_url_ipv6, geo_part(*file).ipv6_url, url_v6_default()),
        ]);
        let dir = chars_of(snapshot_dir.as_str());
        let snapshot_ipv4_file = string_of(
            path_join_chars(dir.as_slice(), chars_of("snapshot_ipv4_routing.prefix").as_slice()).as_slice(),
        );
        let snapshot_ipv6_file = string_of(
            path_join_chars(dir.as_slice(), chars_of("snapshot_ipv6_routing.prefix").as_slice()).as_slice(),
        );
        let snapshot_dns_file = string_of(
            path_join_chars(dir.as_slice(), chars_of("snapshot_dns_routing.prefix").as_slice()).as_slice(),
        );
        let r = Settings {
            ip_version,
            country_code,
            sync_time,
            sync_schedule,
            gobgpd_config,
            gobgp_api_host,
            gobgp_api_port,
            gobgp_nexthop_ipv4,
            gobgp_nexthop_ipv6,
            community_nexthop_ipv4,
            community_nexthop_ipv6,
            log_file,
            snapshot_dir,
            snapshot_ipv4_file,
            snapshot_ipv6_file,
            community_asn,
            concurrency,
            domains_file,
            dns_interval,
            dns_interval_secs,
            dns_servers,
            snapshot_dns_file,
            geo_urls,
        };
        proof {
            lemma_default_settings();
            lemma_dns_servers_setting(*args, *file);
            let sv = string_views(r.dns_servers@);
            assert forall|i: int| 0 <= i < r.dns_servers@.len() implies ip_family(
                #[trigger] r.dns_servers@[i]@,
            ) != 0 by {
                assert(sv[i] == r.dns_servers@[i]@);
            }
            assert forall|i: int, j: int| 0 <= i < j < r.dns_servers@.len() implies r.dns_servers@[i]@
                != r.dns_servers@[j]@ by {
                assert(sv[i] == r.dns_servers@[i]@);
                assert(sv[j] == r.dns_servers@[j]@);
            }
        }
        r
    }
}

} // verus!
