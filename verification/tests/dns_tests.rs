use gobgp_sync::config::IpVersion;
use gobgp_sync::dns::{
    within_grace_exec, DnsManager, DnsSnapshot, DomainLookup, LookupFamily, ReconcileAction, RibReconcile,
};
use gobgp_sync::prefix_map::PrefixMap;

fn chars(s: &str) -> Vec<char> {
    s.chars().collect()
}

fn pairs(m: &PrefixMap) -> Vec<(String, String)> {
    (0..m.len()).map(|i| { let (k, v) = m.entry(i); (k.clone(), v.clone()) }).collect()
}

fn snap(items: &[(&str, bool, &str, i64)]) -> DnsSnapshot {
    let mut s = DnsSnapshot::new();
    for (d, v6, p, t) in items {
        s.insert(&chars(d), *v6, &chars(p), *t);
    }
    s
}

fn hits(ps: &[&str]) -> LookupFamily {
    LookupFamily::Hit(ps.iter().map(|p| p.to_string()).collect())
}

fn strings(v: &[&str]) -> Vec<String> {
    v.iter().map(|s| s.to_string()).collect()
}

#[test]
fn domains_file_is_trimmed_lowered_and_deduplicated() {
    let text = "# comment\n\n  Example.COM.  \nexample.com\nfoo.org..\r\n   # indented comment\n.\nBar.net";
    assert_eq!(DnsManager::load_domains(text), strings(&["example.com", "foo.org", "bar.net"]));
    assert!(DnsManager::load_domains("").is_empty());
    assert!(DnsManager::load_domains("# only\n\n").is_empty());
}

#[test]
fn snapshot_insert_get_and_overwrite() {
    let mut s = DnsSnapshot::new();
    assert_eq!(s.len(), 0);
    s.insert(&chars("a.com"), false, &chars("1.1.1.1/32"), 10);
    s.insert(&chars("a.com"), true, &chars("::1/128"), 20);
    s.insert(&chars("a.com"), false, &chars("1.1.1.1/32"), 30);
    assert_eq!(s.len(), 2);
    assert_eq!(s.get(&chars("a.com"), false, &chars("1.1.1.1/32")), Some(30));
    assert_eq!(s.get(&chars("a.com"), true, &chars("::1/128")), Some(20));
    assert_eq!(s.get(&chars("a.com"), true, &chars("1.1.1.1/32")), None);
    assert_eq!(s.get(&chars("b.com"), false, &chars("1.1.1.1/32")), None);
}

#[test]
fn snapshot_lines_are_parsed() {
    let l = DnsManager::parse_dns_line(&chars("  1.2.3.4/32 65535:65535 Example.COM. 2024-01-01T00:00:00")).unwrap();
    assert_eq!(l.prefix, "1.2.3.4/32");
    assert_eq!(l.domain, "example.com");
    assert_eq!(l.last_seen.as_deref(), Some("2024-01-01T00:00:00"));
    let l = DnsManager::parse_dns_line(&chars("2001:db8::1/128")).unwrap();
    assert_eq!(l.domain, "_");
    assert_eq!(l.last_seen, None);
    assert!(DnsManager::parse_dns_line(&chars("# 1.2.3.4/32")).is_none());
    assert!(DnsManager::parse_dns_line(&chars("   ")).is_none());
    assert!(DnsManager::parse_dns_line(&chars("not-a-prefix 65535:65535 a.com")).is_none());
    let ls = DnsManager::parse_dns_lines("1.1.1.1/32 c a.com\nbad\n\n::1/128 c b.com\n");
    assert_eq!(ls.len(), 2);
    assert_eq!(ls[1].prefix, "::1/128");
}

#[test]
fn snapshot_without_times_counts_as_seen_now() {
    let s = DnsManager::load_snapshot("1.1.1.1/32 65535:65535 a.com\n::1/128 65535:65535 a.com\n# x\n", 500);
    assert_eq!(s.len(), 2);
    assert_eq!(s.get(&chars("a.com"), false, &chars("1.1.1.1/32")), Some(500));
    assert_eq!(s.get(&chars("a.com"), true, &chars("::1/128")), Some(500));
    let s = DnsManager::load_snapshot("1.1.1.1/32 65535:65535 a.com not-a-time", 7);
    assert_eq!(s.get(&chars("a.com"), false, &chars("1.1.1.1/32")), Some(7));
    assert_eq!(DnsManager::load_snapshot("", 7).len(), 0);
}

#[test]
fn snapshot_file_with_times_is_read_back() {
    let s = snap(&[("a.com", false, "1.1.1.1/32", 1_700_000_000), ("b.com", true, "::1/128", 1_700_000_100)]);
    let text = DnsManager::snapshot_text(&s);
    let back = DnsManager::load_snapshot(&text, 0);
    assert_eq!(back.len(), 2);
    assert_eq!(back.get(&chars("a.com"), false, &chars("1.1.1.1/32")), Some(1_700_000_000));
    assert_eq!(back.get(&chars("b.com"), true, &chars("::1/128")), Some(1_700_000_100));
}

#[test]
fn snapshot_text_orders_by_prefix_then_domain() {
    let s = snap(&[
        ("b.com", false, "2.2.2.2/32", 1_700_000_000),
        ("a.com", false, "2.2.2.2/32", 1_700_000_000),
        ("a.com", false, "1.1.1.1/32", 1_700_000_000),
    ]);
    let text = DnsManager::snapshot_text(&s);
    let lines: Vec<&str> = text.split('\n').collect();
    assert_eq!(lines.len(), 3);
    assert!(lines[0].starts_with("1.1.1.1/32 65535:65535 a.com "));
    assert!(lines[1].starts_with("2.2.2.2/32 65535:65535 a.com "));
    assert!(lines[2].starts_with("2.2.2.2/32 65535:65535 b.com "));
    assert_eq!(DnsManager::snapshot_text(&DnsSnapshot::new()), "");
}

#[test]
fn flatten_gives_each_prefix_once() {
    let s = snap(&[("a.com", false, "2.2.2.2/32", 1), ("b.com", false, "2.2.2.2/32", 2), ("a.com", true, "::1/128", 3)]);
    assert_eq!(DnsManager::flatten(&s), strings(&["2.2.2.2/32", "::1/128"]));
    let m = DnsManager::flatten_entries(&s);
    assert_eq!(pairs(&m), vec![
        ("2.2.2.2/32".to_string(), "65535:65535".to_string()),
        ("::1/128".to_string(), "65535:65535".to_string()),
    ]);
}

#[test]
fn diff_announces_new_and_withdraws_gone() {
    let old = snap(&[("a.com", false, "1.1.1.1/32", 1), ("b.com", false, "2.2.2.2/32", 1)]);
    let new = snap(&[("a.com", false, "1.1.1.1/32", 5), ("a.com", false, "3.3.3.3/32", 5), ("c.com", false, "2.2.2.2/32", 5)]);
    let d = DnsManager::diff(&old, &new);
    assert_eq!(pairs(&d.to_add), vec![("3.3.3.3/32".to_string(), "65535:65535".to_string())]);
    assert_eq!(d.to_del.len(), 0);
    let d = DnsManager::diff(&new, &old);
    assert_eq!(d.to_add.len(), 0);
    assert_eq!(pairs(&d.to_del), vec![("3.3.3.3/32".to_string(), "65535:65535".to_string())]);
}

#[test]
fn grace_keeps_recent_addresses_and_refreshes_returned_ones() {
    let old = snap(&[("a.com", false, "1.1.1.1/32", 100), ("a.com", true, "::1/128", 100)]);
    let lookups = vec![("a.com".to_string(), DomainLookup { ipv4: hits(&["2.2.2.2/32"]), ipv6: LookupFamily::Miss })];
    let domains = strings(&["a.com"]);
    let r = DnsManager::apply_grace(&old, &lookups, &domains, 50, 120);
    assert_eq!(r.len(), 3);
    assert_eq!(r.get(&chars("a.com"), false, &chars("2.2.2.2/32")), Some(120));
    assert_eq!(r.get(&chars("a.com"), false, &chars("1.1.1.1/32")), Some(100));
    assert_eq!(r.get(&chars("a.com"), true, &chars("::1/128")), Some(100));
    let r = DnsManager::apply_grace(&old, &lookups, &domains, 50, 150);
    assert_eq!(r.len(), 1);
    assert_eq!(r.get(&chars("a.com"), false, &chars("2.2.2.2/32")), Some(150));
}

#[test]
fn grace_zero_keeps_only_returned_addresses() {
    let old = snap(&[("a.com", false, "1.1.1.1/32", 100), ("a.com", false, "2.2.2.2/32", 90)]);
    let lookups = vec![("a.com".to_string(), DomainLookup { ipv4: hits(&["2.2.2.2/32"]), ipv6: LookupFamily::Skipped })];
    let r = DnsManager::apply_grace(&old, &lookups, &strings(&["a.com"]), 0, 100);
    assert_eq!(r.len(), 1);
    assert_eq!(r.get(&chars("a.com"), false, &chars("2.2.2.2/32")), Some(100));
}

#[test]
fn skipped_family_and_unlisted_domain_are_dropped() {
    let old = snap(&[("a.com", true, "::1/128", 100), ("gone.com", false, "9.9.9.9/32", 100)]);
    let lookups = vec![
        ("a.com".to_string(), DomainLookup { ipv4: LookupFamily::Miss, ipv6: LookupFamily::Skipped }),
        ("gone.com".to_string(), DomainLookup { ipv4: hits(&["9.9.9.9/32"]), ipv6: LookupFamily::Skipped }),
    ];
    let r = DnsManager::apply_grace(&old, &lookups, &strings(&["a.com"]), 1000, 101);
    assert_eq!(r.len(), 0);
    let r = DnsManager::apply_grace(&old, &Vec::new(), &strings(&["gone.com"]), 1000, 101);
    assert_eq!(r.get(&chars("gone.com"), false, &chars("9.9.9.9/32")), Some(100));
}

#[test]
fn grace_window_is_strict() {
    assert!(within_grace_exec(100, 149, 50));
    assert!(!within_grace_exec(100, 150, 50));
    assert!(!within_grace_exec(100, 100, 0));
    assert!(within_grace_exec(200, 100, 0));
    assert!(within_grace_exec(i64::MIN, i64::MAX, u64::MAX) == false);
}

#[test]
fn lookups_without_addresses_are_misses() {
    assert!(matches!(DnsManager::lookup_result(Vec::new()), LookupFamily::Miss));
    match DnsManager::lookup_result(strings(&["1.1.1.1/32"])) {
        LookupFamily::Hit(v) => assert_eq!(v, strings(&["1.1.1.1/32"])),
        _ => panic!("expected a hit"),
    }
}

fn prefixes(pairs_in: &[&str]) -> PrefixMap {
    PrefixMap::from_pairs(pairs_in.iter().map(|p| (p.to_string(), String::new())).collect())
}

#[test]
fn reconcile_adds_only_missing_routes() {
    let (_, a) = RibReconcile::start(&DnsSnapshot::new(), IpVersion::Dual);
    assert!(matches!(a, ReconcileAction::Finish(0)));

    let s = snap(&[("a.com", false, "1.1.1.1/32", 10), ("a.com", true, "::1/128", 20), ("b.com", false, "2.2.2.2/32", 5)]);
    let (mut rec, a) = RibReconcile::start(&s, IpVersion::Dual);
    assert!(matches!(a, ReconcileAction::List(false)));
    let a = rec.listed(Some(prefixes(&["1.1.1.1/32", "9.9.9.9/32"])));
    assert!(matches!(a, ReconcileAction::List(true)));
    match rec.listed(Some(prefixes(&[]))) {
        ReconcileAction::Add(m) => {
            assert_eq!(pairs(&m), vec![
                ("2.2.2.2/32".to_string(), "65535:65535".to_string()),
                ("::1/128".to_string(), "65535:65535".to_string()),
            ]);
        }
        other => panic!("expected routes to add, got {:?}", other),
    }

    let (mut rec, a) = RibReconcile::start(&s, IpVersion::Ipv4);
    assert!(matches!(a, ReconcileAction::List(false)));
    assert!(matches!(rec.listed(None), ReconcileAction::Finish(1)));

    let (mut rec, _) = RibReconcile::start(&s, IpVersion::Ipv6);
    let all = prefixes(&["1.1.1.1/32", "::1/128", "2.2.2.2/32"]);
    assert!(matches!(rec.listed(Some(all)), ReconcileAction::Finish(0)));
}
