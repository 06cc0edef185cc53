use gobgp_sync::config::{
    CliArgs, ConfigFile, DnsConfig, GeoConfig, GlobalConfig, GobgpConfig, IpVersion, Settings,
    join_string_list,
};

fn no_args() -> CliArgs {
    CliArgs {
        config: None,
        ip_version: None,
        country_code: None,
        sync_time: None,
        gobgpd_config: None,
        gobgp_api_host: None,
        gobgp_api_port: None,
        gobgp_nexthop_ipv4: None,
        gobgp_nexthop_ipv6: None,
        community_nexthop_ipv4: Vec::new(),
        community_nexthop_ipv6: Vec::new(),
        log_file: None,
        snapshot_dir: None,
        community_asn: None,
        geo_url_ipv4: None,
        geo_url_ipv6: None,
        concurrency: None,
        domains_file: None,
        dns_interval: None,
        dns_servers: None,
    }
}

fn s(x: &str) -> Option<String> {
    Some(x.to_string())
}

fn defaults() -> Settings {
    Settings::from_sources(&no_args(), &None)
}

#[test]
fn ip_version_from_str_any_case() {
    assert_eq!(IpVersion::from_str("ipv4"), IpVersion::Ipv4);
    assert_eq!(IpVersion::from_str("IPv6"), IpVersion::Ipv6);
    assert_eq!(IpVersion::from_str("DUAL"), IpVersion::Dual);
    assert_eq!(IpVersion::from_str("v4"), IpVersion::Dual);
    assert_eq!(IpVersion::from_str(""), IpVersion::Dual);
}

#[test]
fn ip_version_families_and_names() {
    assert!(IpVersion::Ipv4.should_process_ipv4());
    assert!(!IpVersion::Ipv4.should_process_ipv6());
    assert!(!IpVersion::Ipv6.should_process_ipv4());
    assert!(IpVersion::Ipv6.should_process_ipv6());
    assert!(IpVersion::Dual.should_process_ipv4() && IpVersion::Dual.should_process_ipv6());
    assert_eq!(IpVersion::Ipv4.as_str(), "ipv4");
    assert_eq!(IpVersion::Ipv6.as_str(), "ipv6");
    assert_eq!(IpVersion::Dual.as_str(), "dual");
}

#[test]
fn dns_interval_units_and_fallbacks() {
    assert_eq!(Settings::parse_dns_interval("10m"), 600);
    assert_eq!(Settings::parse_dns_interval("30s"), 30);
    assert_eq!(Settings::parse_dns_interval("1H"), 3600);
    assert_eq!(Settings::parse_dns_interval("45"), 45);
    assert_eq!(Settings::parse_dns_interval("0"), 1);
    assert_eq!(Settings::parse_dns_interval("0s"), 1);
    assert_eq!(Settings::parse_dns_interval("  2 m "), 120);
    assert_eq!(Settings::parse_dns_interval(""), 600);
    assert_eq!(Settings::parse_dns_interval("   "), 600);
    assert_eq!(Settings::parse_dns_interval("abc"), 600);
    assert_eq!(Settings::parse_dns_interval("5x"), 600);
    assert_eq!(Settings::parse_dns_interval("m"), 600);
    assert_eq!(Settings::parse_dns_interval("18446744073709551615h"), u64::MAX);
}

#[test]
fn dns_servers_keep_valid_addresses_once() {
    let v = Settings::parse_dns_servers("223.5.5.5, 119.29.29.29 223.5.5.5,bad,,::1");
    assert_eq!(v, vec!["223.5.5.5".to_string(), "119.29.29.29".to_string(), "::1".to_string()]);
    assert!(Settings::parse_dns_servers("nope 1.2.3").is_empty());
}

#[test]
fn defaults_when_nothing_is_given() {
    let st = defaults();
    assert_eq!(st.ip_version, IpVersion::Dual);
    assert_eq!(st.country_code, "CN");
    assert_eq!(st.sync_time, "02:00");
    assert_eq!(st.gobgpd_config, "config/gobgpd.conf");
    assert_eq!(st.gobgp_api_host, "127.0.0.1");
    assert_eq!(st.gobgp_api_port, 50051);
    assert_eq!(st.gobgp_nexthop_ipv4, "0.0.0.0");
    assert_eq!(st.gobgp_nexthop_ipv6, "::");
    assert_eq!(st.log_file, "logs/gobgp_sync.log");
    assert_eq!(st.snapshot_dir, "snapshot");
    assert_eq!(st.community_asn, "3166");
    assert_eq!(st.concurrency, 100);
    assert_eq!(st.domains_file, "config/domains.txt");
    assert_eq!(st.dns_interval, "10m");
    assert_eq!(st.dns_interval_secs, 600);
    assert_eq!(st.dns_servers, vec!["223.5.5.5".to_string(), "119.29.29.29".to_string()]);
    assert_eq!(st.snapshot_ipv4_file, "snapshot/snapshot_ipv4_routing.prefix");
    assert_eq!(st.snapshot_ipv6_file, "snapshot/snapshot_ipv6_routing.prefix");
    assert_eq!(st.snapshot_dns_file, "snapshot/snapshot_dns_routing.prefix");
    assert_eq!(
        st.geo_urls.get(&['i', 'p', 'v', '4']).map(|x| x.as_str()),
        Some("https://github.com/sapics/ip-location-db/releases/download/latest/user-country-ipv4-cidr.csv")
    );
    assert_eq!(
        st.geo_urls.get(&['i', 'p', 'v', '6']).map(|x| x.as_str()),
        Some("https://github.com/sapics/ip-location-db/releases/download/latest/user-country-ipv6-cidr.csv")
    );
    assert_eq!(st.gobgp_api_addr(), "http://127.0.0.1:50051");
}

fn file_with_country(cc: &str) -> ConfigFile {
    ConfigFile {
        global: Some(GlobalConfig {
            ip_version: s("ipv4"),
            country_code: s(cc),
            sync_time: s("03:30"),
            log_file: None,
            snapshot_dir: s("snap/"),
            community_asn: s(" 65000 "),
            concurrency: Some(0),
        }),
        gobgp: Some(GobgpConfig {
            config: None,
            api_host: s("10.0.0.1"),
            api_port: Some(50052),
            nexthop_ipv4: s("198.19.0.1"),
            nexthop_ipv6: s("1.2.3.4"),
            community_nexthop_ipv4: Some(vec![
                ("cn".to_string(), "198.19.0.254".to_string()),
                ("XX".to_string(), "198.19.0.9".to_string()),
                ("JP".to_string(), "not-an-ip".to_string()),
            ]),
            community_nexthop_ipv6: None,
        }),
        geo: Some(GeoConfig { ipv4_url: s("http://mirror/v4.csv"), ipv6_url: s("   ") }),
        dns: Some(DnsConfig { domains_file: None, interval: s("30s"), grace: None, servers: s("8.8.8.8,x") }),
    }
}

#[test]
fn config_file_over_defaults() {
    let st = Settings::from_sources(&no_args(), &Some(file_with_country("jp")));
    assert_eq!(st.ip_version, IpVersion::Ipv4);
    assert_eq!(st.country_code, "JP");
    assert_eq!(st.sync_time, "03:30");
    assert_eq!(st.snapshot_dir, "snap/");
    assert_eq!(st.snapshot_ipv4_file, "snap/snapshot_ipv4_routing.prefix");
    assert_eq!(st.community_asn, "65000");
    assert_eq!(st.concurrency, 100);
    assert_eq!(st.gobgp_api_addr(), "http://10.0.0.1:50052");
    assert_eq!(st.gobgp_nexthop_ipv4, "198.19.0.1");
    assert_eq!(st.gobgp_nexthop_ipv6, "::");
    assert_eq!(st.dns_interval_secs, 30);
    assert_eq!(st.dns_servers, vec!["8.8.8.8".to_string()]);
    assert_eq!(st.geo_urls.get(&['i', 'p', 'v', '4']).map(|x| x.as_str()), Some("http://mirror/v4.csv"));
    assert_eq!(st.community_nexthop_ipv4.len(), 1);
    assert_eq!(st.community_nexthop_ipv4.get(&['1', '5', '6']).map(|x| x.as_str()), Some("198.19.0.254"));
    assert_eq!(st.next_hop_for_community("65000:156", false), "198.19.0.254");
    assert_eq!(st.next_hop_for_community("65000:392", false), "198.19.0.1");
    assert_eq!(st.next_hop_for_community("65000:156", true), "::");
}

#[test]
fn command_line_over_config_file() {
    let mut args = no_args();
    args.country_code = s("us, cn us");
    args.ip_version = s("  ");
    args.concurrency = Some(8);
    args.gobgp_api_port = Some(1179);
    args.community_nexthop_ipv4 = vec!["CN=10.9.9.9".to_string(), "bogus".to_string(), "ZZ=1.1.1.1".to_string()];
    args.community_nexthop_ipv6 = vec!["cn = 2001:db8::fe".to_string()];
    args.dns_servers = s("bad");
    let st = Settings::from_sources(&args, &Some(file_with_country("jp")));
    assert_eq!(st.country_code, "CN,US");
    assert_eq!(st.ip_version, IpVersion::Ipv4);
    assert_eq!(st.concurrency, 8);
    assert_eq!(st.gobgp_api_port, 1179);
    assert_eq!(st.next_hop_for_community("65000:156", false), "10.9.9.9");
    assert_eq!(st.next_hop_for_community("65000:156", true), "2001:db8::fe");
    assert_eq!(st.dns_servers, vec!["223.5.5.5".to_string(), "119.29.29.29".to_string()]);
}

#[test]
fn country_code_validation() {
    let check = |raw: &str, want: &str| {
        let mut args = no_args();
        args.country_code = s(raw);
        assert_eq!(Settings::from_sources(&args, &None).country_code, want, "{raw}");
    };
    check("ALL,CN", "ALL");
    check("jp,NONECN", "NONECN");
    check("XX,??", "CN");
    check("us,cn,US", "CN,US");
    check("de jp", "DE,JP");
}

#[test]
fn country_modes_and_selection() {
    let mut args = no_args();
    args.country_code = s("ALL");
    let all = Settings::from_sources(&args, &None);
    assert!(all.is_all() && !all.should_filter_cn());
    assert!(all.selected_countries().is_empty());
    args.country_code = s("nonecn");
    let non = Settings::from_sources(&args, &None);
    assert!(non.should_filter_cn() && !non.is_all());
    args.country_code = s("jp,cn");
    let two = Settings::from_sources(&args, &None);
    assert_eq!(two.country_tokens(), vec!["CN".to_string(), "JP".to_string()]);
    assert_eq!(two.selected_countries(), vec!["CN".to_string(), "JP".to_string()]);
}

#[test]
fn communities_of_countries() {
    let st = defaults();
    assert_eq!(st.community_for_country("CN"), Some("3166:156".to_string()));
    assert_eq!(st.community_for_country("JP"), Some("3166:392".to_string()));
    assert_eq!(st.community_for_country("XX"), Some("3166:3166".to_string()));
    assert_eq!(st.fallback_community(), "3166:3166");
    assert_eq!(st.community_from_old("65000:156"), "3166:156");
    assert_eq!(st.community_from_old("65000: 392 "), "3166:392");
    assert_eq!(st.community_from_old("65000"), "3166:3166");
    assert_eq!(st.community_from_old("65000:abc"), "3166:3166");
    assert_eq!(st.community_from_old("65000:999"), "3166:3166");
}

#[test]
fn invalid_asn_falls_back() {
    let mut args = no_args();
    args.community_asn = s("abc");
    assert_eq!(Settings::from_sources(&args, &None).community_asn, "3166");
    args.community_asn = s("4294967296");
    assert_eq!(Settings::from_sources(&args, &None).community_asn, "3166");
    args.community_asn = s("4200000000");
    assert_eq!(Settings::from_sources(&args, &None).community_asn, "4200000000");
}

#[test]
fn country_next_hop_items() {
    assert_eq!(
        Settings::parse_country_next_hop(" jp = 1.2.3.4 "),
        Some(("392".to_string(), "1.2.3.4".to_string()))
    );
    assert_eq!(Settings::parse_country_next_hop("JP1.2.3.4"), None);
    assert_eq!(Settings::parse_country_next_hop("QQ=1.2.3.4"), None);
    assert_eq!(Settings::country_to_numeric_code(&[' ', 'd', 'e']), Some(vec!['2', '7', '6']));
}

#[test]
fn joins_list_settings() {
    assert_eq!(join_string_list(&vec!["CN".to_string(), "JP".to_string()]), "CN,JP");
    assert_eq!(join_string_list(&Vec::new()), "");
}

#[test]
fn country_code_setting_is_normalised() {
    let v = |raw: &str| -> String {
        let cs: Vec<char> = raw.chars().collect();
        Settings::validated_country_code(&cs).into_iter().collect()
    };
    assert_eq!(v(" jp, cn JP"), "CN,JP");
    assert_eq!(v("nonecn,ALL"), "ALL");
    assert_eq!(v("NoneCN jp"), "NONECN");
    assert_eq!(v("xx"), "CN");
    assert_eq!(v(""), "CN");
}

#[test]
fn ip_version_names_read_back() {
    for v in [IpVersion::Ipv4, IpVersion::Ipv6, IpVersion::Dual] {
        assert_eq!(IpVersion::from_str(v.as_str()), v);
        assert_eq!(IpVersion::from_str(&v.as_str().to_uppercase()), v);
    }
}

#[test]
fn invalid_settings_fall_back_to_valid_ones() {
    let mut args = no_args();
    args.concurrency = Some(0);
    args.community_asn = s("not-a-number");
    args.gobgp_nexthop_ipv4 = s("::1");
    args.gobgp_nexthop_ipv6 = s("10.0.0.1");
    args.dns_interval = s("0s");
    args.dns_servers = s("8.8.8.8 8.8.8.8, x");
    args.community_nexthop_ipv4 = vec!["CN=::1".to_string()];
    let st = Settings::from_sources(&args, &None);
    assert_eq!(st.concurrency, 100);
    assert_eq!(st.community_asn, "3166");
    assert_eq!(st.gobgp_nexthop_ipv4, "0.0.0.0");
    assert_eq!(st.gobgp_nexthop_ipv6, "::");
    assert_eq!(st.dns_interval_secs, 1);
    assert_eq!(st.dns_servers, vec!["8.8.8.8".to_string()]);
    assert_eq!(st.next_hop_for_community("65000:156", false), "0.0.0.0");
}
