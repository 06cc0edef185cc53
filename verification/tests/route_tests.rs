use gobgp_sync::config::{CliArgs, Settings};
use gobgp_sync::prefix_map::PrefixMap;
use gobgp_sync::route::RouteManager;
use gobgp_sync::scheduler::{FamilyAction, RouteScheduler};
use gobgp_sync::calendar::Date;

fn pm(pairs: &[(&str, &str)]) -> PrefixMap {
    PrefixMap::from_pairs(pairs.iter().map(|(k, v)| (k.to_string(), v.to_string())).collect())
}

fn pairs(m: &PrefixMap) -> Vec<(String, String)> {
    (0..m.len()).map(|i| { let (k, v) = m.entry(i); (k.clone(), v.clone()) }).collect()
}

fn chars(s: &str) -> Vec<char> {
    s.chars().collect()
}

fn no_args() -> CliArgs {
    CliArgs {
        config: None, ip_version: None, country_code: None, sync_time: None, gobgpd_config: None,
        gobgp_api_host: None, gobgp_api_port: None, gobgp_nexthop_ipv4: None, gobgp_nexthop_ipv6: None,
        community_nexthop_ipv4: Vec::new(), community_nexthop_ipv6: Vec::new(), log_file: None,
        snapshot_dir: None, community_asn: None, geo_url_ipv4: None, geo_url_ipv6: None,
        concurrency: None, domains_file: None, dns_interval: None, dns_servers: None,
    }
}

#[test]
fn prefix_map_last_pair_wins_and_keys_sorted() {
    let m = pm(&[("b", "1"), ("a", "2"), ("b", "3"), ("c", "4"), ("a", "5")]);
    assert_eq!(pairs(&m), vec![
        ("a".to_string(), "5".to_string()),
        ("b".to_string(), "3".to_string()),
        ("c".to_string(), "4".to_string()),
    ]);
    assert_eq!(m.get(&chars("b")).map(|s| s.as_str()), Some("3"));
    assert!(m.get(&chars("d")).is_none());
    assert!(m.contains_key(&chars("c")));
    let u = PrefixMap::union(&m, &pm(&[("b", "9"), ("d", "0")]));
    assert_eq!(u.len(), 4);
    assert_eq!(u.get(&chars("b")).map(|s| s.as_str()), Some("9"));
}

#[test]
fn snapshot_text_is_read_back() {
    let text = "10.0.0.0/8 3166:156\n\n  192.168.0.0/16  \nbad line\n10.0.0.0/8 3166:392\r\n::/0 65535:65535 extra";
    let m = RouteManager::parse_snapshot(text);
    assert_eq!(pairs(&m), vec![
        ("10.0.0.0/8".to_string(), "3166:392".to_string()),
        ("192.168.0.0/16".to_string(), String::new()),
        ("::/0".to_string(), "65535:65535 extra".to_string()),
    ]);
    let out = RouteManager::render_snapshot(&m);
    assert_eq!(out, "10.0.0.0/8 3166:392\n192.168.0.0/16\n::/0 65535:65535 extra");
    let again = RouteManager::parse_snapshot(&out);
    assert_eq!(pairs(&again), pairs(&m));
    assert!(RouteManager::parse_snapshot("").len() == 0);
    assert_eq!(RouteManager::render_snapshot(&PrefixMap::new()), "");
}

#[test]
fn rib_reconcile_finds_missing() {
    let desired = pm(&[("1.0.0.0/8", "a"), ("2.0.0.0/8", "b"), ("3.0.0.0/8", "c")]);
    let rib = pm(&[("2.0.0.0/8", ""), ("9.0.0.0/8", "")]);
    let missing = RouteManager::missing_from_rib(&desired, &rib);
    assert_eq!(pairs(&missing), vec![
        ("1.0.0.0/8".to_string(), "a".to_string()),
        ("3.0.0.0/8".to_string(), "c".to_string()),
    ]);
    let batch = RouteManager::batch_entries(&missing);
    assert_eq!(batch.len(), 2);
    assert_eq!(batch[1].community, "c");
}

#[test]
fn diff_against_previous_table() {
    let last = pm(&[("1.0.0.0/8", "3166:156"), ("2.0.0.0/8", "3166:156"), ("3.0.0.0/8", "3166:392")]);
    let cur = pm(&[("1.0.0.0/8", "3166:156"), ("3.0.0.0/8", "3166:156"), ("4.0.0.0/8", "3166:156")]);
    let d = RouteScheduler::compute_diff(&cur, &last);
    assert_eq!((d.total, d.added, d.removed, d.changed, d.unchanged), (3, 1, 1, 1, false));
    assert_eq!(pairs(&d.to_add), vec![
        ("3.0.0.0/8".to_string(), "3166:156".to_string()),
        ("4.0.0.0/8".to_string(), "3166:156".to_string()),
    ]);
    assert_eq!(pairs(&d.to_del), vec![
        ("2.0.0.0/8".to_string(), "3166:156".to_string()),
        ("3.0.0.0/8".to_string(), "3166:392".to_string()),
    ]);
    // withdrawing to_del and announcing to_add turns `last` into `cur`
    let mut applied: Vec<(String, String)> = pairs(&last)
        .into_iter()
        .filter(|(k, _)| !d.to_del.contains_key(&chars(k)))
        .collect();
    applied.extend(pairs(&d.to_add));
    assert_eq!(pairs(&PrefixMap::from_pairs(applied)), pairs(&cur));
    let same = RouteScheduler::compute_diff(&cur, &cur);
    assert!(same.unchanged && same.to_add.len() == 0 && same.to_del.len() == 0);
}

#[test]
fn family_actions() {
    assert_eq!(RouteScheduler::family_action(false, false, true, true, true), FamilyAction::Skip);
    assert_eq!(RouteScheduler::family_action(true, false, false, true, true), FamilyAction::Extract);
    assert_eq!(RouteScheduler::family_action(true, false, true, false, true), FamilyAction::Extract);
    assert_eq!(RouteScheduler::family_action(true, true, true, true, true), FamilyAction::Extract);
    assert_eq!(RouteScheduler::family_action(true, false, true, true, false), FamilyAction::RewriteAttrs);
    assert_eq!(RouteScheduler::family_action(true, false, true, true, true), FamilyAction::Restore);
}

#[test]
fn state_file_written_and_read() {
    let mut args = no_args();
    args.community_nexthop_ipv4 = vec!["JP=10.0.0.2".to_string(), "CN=10.0.0.1".to_string()];
    let st = Settings::from_sources(&args, &None);
    assert_eq!(RouteScheduler::scope_fingerprint(&st), "country_code=CN\nip_version=dual\n");
    assert_eq!(
        RouteScheduler::attr_fingerprint(&st),
        "community_asn=3166\nnexthop_ipv4=0.0.0.0\nnexthop_ipv6=::\ncommunity_nexthop_ipv4=156=10.0.0.1,392=10.0.0.2\ncommunity_nexthop_ipv6=\n"
    );
    let today = Date::from_ymd(2024, 5, 6).unwrap();
    let text = RouteScheduler::snapshot_state_text(&st, today);
    assert!(text.starts_with("date=2024-05-06\ncountry_code=CN\n"));
    let state = RouteScheduler::parse_snapshot_state(&text).unwrap();
    assert_eq!(state.country_code, "CN");
    assert_eq!(state.ip_version, gobgp_sync::config::IpVersion::Dual);
    assert_eq!(state.attrs, RouteScheduler::attr_fingerprint(&st));
    assert_eq!(state.date.unwrap().day_number(), today.day_number());
    let plan = RouteScheduler::plan_sync(&st, &Some(state), today, false, false);
    assert!(plan.lifecycle_ok && plan.scope_same && plan.attrs_same);
    assert_eq!(plan.action_ipv4, FamilyAction::Restore);
    assert_eq!(plan.action_ipv6, FamilyAction::Restore);
    assert!(!plan.withdraw_ipv4 && !plan.withdraw_ipv6);
}

#[test]
fn plans_without_or_with_changed_state() {
    let st = Settings::from_sources(&no_args(), &None);
    let today = Date::from_ymd(2024, 5, 6).unwrap();
    let fresh = RouteScheduler::plan_sync(&st, &None, today, true, true);
    assert!(!fresh.lifecycle_ok && !fresh.scope_same && !fresh.attrs_same);
    assert_eq!(fresh.action_ipv4, FamilyAction::Extract);
    let old = RouteScheduler::parse_snapshot_state("date=2024-05-06\ncountry_code=JP\nip_version=ipv4\nother=1\n").unwrap();
    assert_eq!(old.attrs, "");
    let plan = RouteScheduler::plan_sync(&st, &Some(old), today, false, false);
    assert!(plan.lifecycle_ok && !plan.scope_same);
    assert_eq!(plan.action_ipv6, FamilyAction::Extract);
    let mut v6 = no_args();
    v6.ip_version = Some("ipv6".to_string());
    let st6 = Settings::from_sources(&v6, &None);
    let prev = RouteScheduler::parse_snapshot_state("country_code=CN\nip_version=dual\n").unwrap();
    assert!(prev.date.is_none());
    let p6 = RouteScheduler::plan_sync(&st6, &Some(prev), today, false, false);
    assert!(p6.withdraw_ipv4 && !p6.withdraw_ipv6);
    assert_eq!(p6.action_ipv4, FamilyAction::Skip);
    assert!(RouteScheduler::parse_snapshot_state("date=2024-01-01\n").is_none());
}

#[test]
fn rewrite_carries_countries_over() {
    let st = Settings::from_sources(&no_args(), &None);
    let old = pm(&[("1.0.0.0/8", "65000:156"), ("2.0.0.0/8", "65000:999"), ("3.0.0.0/8", "")]);
    let new = RouteScheduler::rewrite_communities(&st, &old);
    assert_eq!(pairs(&new), vec![
        ("1.0.0.0/8".to_string(), "3166:156".to_string()),
        ("2.0.0.0/8".to_string(), "3166:3166".to_string()),
        ("3.0.0.0/8".to_string(), "3166:3166".to_string()),
    ]);
}

#[test]
fn sleep_between_runs() {
    assert_eq!(RouteScheduler::sleep_secs(1_000, 990), 60);
    assert_eq!(RouteScheduler::sleep_secs(10_000, 1_000), 9_000);
    assert_eq!(RouteScheduler::sleep_secs(0, 100), 60);
}
