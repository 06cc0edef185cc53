use gobgp_sync::calendar::Date;
use gobgp_sync::config::{CliArgs, IpVersion, Settings};
use gobgp_sync::geo::{CountryLineFilter, DownloadStep, GeoDataFetcher, PrefixExtractor};
use gobgp_sync::geo::DownloadStep::{Fetch, Pause};
use gobgp_sync::prefix_map::PrefixMap;
use gobgp_sync::strmap::StrMap;

const URL4: &str = "https://github.com/sapics/ip-location-db/releases/download/latest/user-country-ipv4-cidr.csv";

fn chars(s: &str) -> Vec<char> {
    s.chars().collect()
}

fn pairs(m: &PrefixMap) -> Vec<(String, String)> {
    (0..m.len()).map(|i| { let (k, v) = m.entry(i); (k.clone(), v.clone()) }).collect()
}

fn p(k: &str, v: &str) -> (String, String) {
    (k.to_string(), v.to_string())
}

fn settings_for(country: Option<&str>) -> Settings {
    let args = CliArgs {
        config: None, ip_version: None, country_code: country.map(|c| c.to_string()), sync_time: None,
        gobgpd_config: None, gobgp_api_host: None, gobgp_api_port: None, gobgp_nexthop_ipv4: None,
        gobgp_nexthop_ipv6: None, community_nexthop_ipv4: Vec::new(), community_nexthop_ipv6: Vec::new(),
        log_file: None, snapshot_dir: None, community_asn: None, geo_url_ipv4: None, geo_url_ipv6: None,
        concurrency: None, domains_file: None, dns_interval: None, dns_servers: None,
    };
    Settings::from_sources(&args, &None)
}

fn day(y: i32, m: u32, d: u32) -> Date {
    Date::from_ymd(y, m, d).unwrap()
}

#[test]
fn http_urls_are_retried_over_https() {
    assert_eq!(
        GeoDataFetcher::download_urls("http://example.com/a.csv"),
        vec!["http://example.com/a.csv".to_string(), "https://example.com/a.csv".to_string()]
    );
    assert_eq!(GeoDataFetcher::download_urls("https://example.com/a.csv"), vec!["https://example.com/a.csv".to_string()]);
    assert_eq!(GeoDataFetcher::download_urls("http:/x"), vec!["http:/x".to_string()]);
}

#[test]
fn download_rounds_pause_between_them() {
    let f = GeoDataFetcher::new();
    assert_eq!((f.retry, f.timeout), (3, 120));
    assert_eq!(f.download_steps("http://h/a"), vec![Fetch(0), Fetch(1), Pause(3), Fetch(0), Fetch(1), Pause(3), Fetch(0), Fetch(1)]);
    assert_eq!(f.download_steps("https://h/a"), vec![Fetch(0), Pause(3), Fetch(0), Pause(3), Fetch(0)]);
    let once = GeoDataFetcher { retry: 1, timeout: 5 };
    assert_eq!(once.download_steps("https://h/a"), vec![Fetch(0)]);
    let never = GeoDataFetcher { retry: 0, timeout: 5 };
    assert!(never.download_steps("https://h/a").is_empty());
}

#[test]
fn cidr_lists_are_extracted_with_country_communities() {
    let s = settings_for(None);
    let text = "# header\n1.0.1.0/24,cn\n 1.0.2.0/23 , CN \n8.8.8.0/24,US\nbad,CN\n1.0.3.0/24\n,CN\n1.0.4.0/24,\n1.0.1.0/24,JP\n";
    let all = PrefixExtractor::extract_cidr_csv(text, &CountryLineFilter::Any, &s);
    assert_eq!(pairs(&all), vec![
        p("1.0.1.0/24", "3166:392"),
        p("1.0.2.0/23", "3166:156"),
        p("8.8.8.0/24", "3166:840"),
    ]);
    let only = PrefixExtractor::extract_cidr_csv(text, &CountryLineFilter::Only(vec![chars("CN")]), &s);
    assert_eq!(pairs(&only), vec![p("1.0.1.0/24", "3166:156"), p("1.0.2.0/23", "3166:156")]);
    let no_cn = PrefixExtractor::extract_cidr_csv(text, &CountryLineFilter::Exclude(chars("CN")), &s);
    assert_eq!(pairs(&no_cn), vec![p("1.0.1.0/24", "3166:392"), p("8.8.8.0/24", "3166:840")]);
    let unknown = PrefixExtractor::extract_cidr_csv("2.0.0.0/8,ZZ", &CountryLineFilter::Any, &s);
    assert_eq!(pairs(&unknown), vec![p("2.0.0.0/8", "3166:3166")]);
}

#[test]
fn country_filters_follow_country_code() {
    assert!(PrefixExtractor::keep_country(&chars("US"), &CountryLineFilter::Any));
    assert!(!PrefixExtractor::keep_country(&chars("CN"), &CountryLineFilter::Exclude(chars("CN"))));
    assert!(PrefixExtractor::keep_country(&chars("HK"), &CountryLineFilter::Exclude(chars("CN"))));
    assert!(!PrefixExtractor::keep_country(&chars("HK"), &CountryLineFilter::Only(vec![chars("CN")])));
    assert!(matches!(PrefixExtractor::country_filter(&settings_for(Some("all"))), CountryLineFilter::Any));
    match PrefixExtractor::country_filter(&settings_for(Some("NONECN"))) {
        CountryLineFilter::Exclude(c) => assert_eq!(c, chars("CN")),
        _ => panic!("expected the filter that drops CN"),
    }
    match PrefixExtractor::country_filter(&settings_for(Some("us,jp"))) {
        CountryLineFilter::Only(set) => assert_eq!(set, vec![chars("JP"), chars("US")]),
        _ => panic!("expected a list of countries"),
    }
}

#[test]
fn prefixes_by_family_follow_ip_version() {
    let s = settings_for(Some("CN"));
    let mut data = StrMap::new();
    data.insert(&chars("ipv4"), &chars("1.0.1.0/24,CN\n8.8.8.0/24,US"));
    data.insert(&chars("ipv6"), &chars("2001:250::/35,CN"));
    let (v4, v6) = PrefixExtractor::get_prefixes_by_country_mode(&s, &data, None);
    assert_eq!(pairs(&v4), vec![p("1.0.1.0/24", "3166:156")]);
    assert_eq!(pairs(&v6), vec![p("2001:250::/35", "3166:156")]);
    let (v4, v6) = PrefixExtractor::get_prefixes_by_country_mode(&s, &data, Some(IpVersion::Ipv6));
    assert_eq!(v4.len(), 0);
    assert_eq!(v6.len(), 1);
    let (v4, v6) = PrefixExtractor::get_prefixes_by_country_mode(&s, &data, Some(IpVersion::Ipv4));
    assert_eq!((v4.len(), v6.len()), (1, 0));
    let (v4, v6) = PrefixExtractor::get_prefixes_by_country_mode(&s, &StrMap::new(), Some(IpVersion::Dual));
    assert_eq!((v4.len(), v6.len()), (0, 0));
}

#[test]
fn valid_cidr_check() {
    assert!(PrefixExtractor::is_valid_cidr("10.0.0.0/8"));
    assert!(PrefixExtractor::is_valid_cidr("2001:db8::/32"));
    assert!(!PrefixExtractor::is_valid_cidr("10.0.0.0/33"));
    assert!(!PrefixExtractor::is_valid_cidr("10.0.0.0"));
}

#[test]
fn manifest_lines_are_read() {
    let (k, m) = GeoDataFetcher::parse_manifest_line(&chars("  ipv4   2024-05-01  https://h/a.csv  ")).unwrap();
    assert_eq!(k, "ipv4");
    assert_eq!((m.date.year(), m.date.month(), m.date.day()), (2024, 5, 1));
    assert_eq!(m.url, "https://h/a.csv");
    assert!(GeoDataFetcher::parse_manifest_line(&chars("ipv4 2024-13-01 u")).is_none());
    assert!(GeoDataFetcher::parse_manifest_line(&chars("ipv4")).is_none());
    let text = "ipv4 2024-05-01 a\nipv6 2024-05-02 b\nipv4 2024-05-03 c\n";
    let e = GeoDataFetcher::manifest_entry(text, "ipv4").unwrap();
    assert_eq!((e.date.day(), e.url.as_str()), (3, "c"));
    assert!(GeoDataFetcher::manifest_entry(text, "dns").is_none());
}

#[test]
fn manifest_is_rewritten_in_order() {
    let d = day(2024, 5, 1);
    assert_eq!(GeoDataFetcher::updated_manifest("", "ipv4", d, "https://h/a"), "ipv4 2024-05-01 https://h/a");
    let old = "ipv6 2024-04-01 u6\nipv4 2024-04-01 old\ngarbage\n";
    assert_eq!(
        GeoDataFetcher::updated_manifest(old, "ipv4", d, "new"),
        "ipv4 2024-05-01 new\nipv6 2024-04-01 u6"
    );
}

#[test]
fn cache_is_used_within_its_day_for_the_same_url() {
    let s = settings_for(None);
    let manifest = format!("ipv4 2024-05-01 {}", URL4);
    assert!(GeoDataFetcher::cached_geo_ok(&s, &manifest, "ipv4", day(2024, 5, 1)));
    assert!(!GeoDataFetcher::cached_geo_ok(&s, &manifest, "ipv4", day(2024, 5, 2)));
    assert!(!GeoDataFetcher::cached_geo_ok(&s, &manifest, "ipv6", day(2024, 5, 1)));
    assert!(!GeoDataFetcher::cached_geo_ok(&s, "ipv4 2024-05-01 https://other/x", "ipv4", day(2024, 5, 1)));
    assert!(!GeoDataFetcher::cached_geo_ok(&s, "", "ipv4", day(2024, 5, 1)));
}
