use gobgp_sync::apipb::{Attr, ListPathResponse, Destination, Payload};
use gobgp_sync::command::{CommandExecutor, ConcurrencyResult, RouteEntry};
use gobgp_sync::geo::PrefixExtractor;
use gobgp_sync::net::NetError;

#[test]
fn cidr_syntax_check() {
    assert!(PrefixExtractor::is_valid_cidr("1.2.3.0/24"));
    assert!(PrefixExtractor::is_valid_cidr("::/0"));
    assert!(PrefixExtractor::is_valid_cidr("2001:db8::/32"));
    assert!(PrefixExtractor::is_valid_cidr("1.2.3.4/+8"));
    assert!(!PrefixExtractor::is_valid_cidr("1.2.3/24"));
    assert!(!PrefixExtractor::is_valid_cidr("1.2.3.256/24"));
    assert!(!PrefixExtractor::is_valid_cidr("2001:db8::/129"));
    assert!(!PrefixExtractor::is_valid_cidr("1.2.3.4"));
    assert!(!PrefixExtractor::is_valid_cidr("1.2.3.4/33"));
    assert!(!PrefixExtractor::is_valid_cidr("1.2.3.4 /8"));
    assert!(!PrefixExtractor::is_valid_cidr("*.2.3.4/8"));
}

#[test]
fn parse_cidr_and_its_errors() {
    let c = CommandExecutor::parse_cidr("10.0.0.0/8").ok().unwrap();
    assert!(!c.is_ipv6);
    assert_eq!(c.ip, "10.0.0.0");
    assert_eq!(c.prefix_len, 8);
    let v6 = CommandExecutor::parse_cidr("2001:db8::/48").ok().unwrap();
    assert!(v6.is_ipv6);
    assert_eq!(v6.prefix_len, 48);
    assert_eq!(CommandExecutor::parse_cidr("10.0.0.0").err(), Some(NetError::NotCidr));
    assert_eq!(CommandExecutor::parse_cidr("10.0.0/8").err(), Some(NetError::BadAddress));
    assert_eq!(CommandExecutor::parse_cidr("10.0.0.0/x").err(), Some(NetError::BadLength));
    assert_eq!(CommandExecutor::parse_cidr("10.0.0.0/33").err(), Some(NetError::LengthTooLong));
    assert_eq!(CommandExecutor::parse_cidr("::1/129").err(), Some(NetError::LengthTooLong));
}

#[test]
fn community_encoding() {
    assert_eq!(CommandExecutor::community_to_u32("3166:156"), Ok((3166u32 << 16) | 156));
    assert_eq!(CommandExecutor::community_to_u32("65535:65535"), Ok(u32::MAX));
    assert_eq!(CommandExecutor::community_to_u32("3166"), Err(NetError::NotCommunity));
    assert_eq!(CommandExecutor::community_to_u32("a:1"), Err(NetError::BadCommunityNumber));
    assert_eq!(CommandExecutor::community_to_u32("70000:1"), Err(NetError::CommunityOutOfRange));
    assert_eq!(NetError::NotCommunity.message(), "community must be <asn>:<value>");
}

#[test]
fn paths_for_announcement() {
    let p = CommandExecutor::build_path("10.0.0.0/8", "3166:156", "198.19.0.254").ok().unwrap();
    let fam = p.family.unwrap();
    assert_eq!((fam.afi, fam.safi), (1, 1));
    assert!(!p.is_withdraw && !p.no_implicit_withdraw);
    match p.nlri.as_ref().unwrap().nlri.as_ref().unwrap() {
        Payload::Prefix(x) => {
            assert_eq!(x.prefix, "10.0.0.0");
            assert_eq!(x.prefix_len, 8);
        }
    }
    assert_eq!(p.pattrs.len(), 3);
    assert!(matches!(p.pattrs[0].attr, Some(Attr::Origin(o)) if o.origin == 0));
    match &p.pattrs[1].attr {
        Some(Attr::NextHop(h)) => assert_eq!(h.next_hop, "198.19.0.254"),
        _ => panic!("next hop expected"),
    }
    match &p.pattrs[2].attr {
        Some(Attr::Communities(c)) => assert_eq!(c.communities, vec![(3166u32 << 16) | 156]),
        _ => panic!("communities expected"),
    }
    let q = CommandExecutor::build_path("2001:db8::/32", "  ", "::").ok().unwrap();
    assert_eq!(q.family.unwrap().afi, 2);
    assert_eq!(q.pattrs.len(), 2);
    assert_eq!(CommandExecutor::build_path("10.0.0/8", "x", "y").err(), Some(NetError::BadAddress));
    assert_eq!(CommandExecutor::build_path("10.0.0.0/8", "bad", "y").err(), Some(NetError::NotCommunity));
}

#[test]
fn requests() {
    let p = CommandExecutor::build_path("10.0.0.0/8", "", "0.0.0.0").ok().unwrap();
    let add = CommandExecutor::add_path_request(p.clone());
    assert_eq!(add.table_type, 1);
    assert!(add.vrf_id.is_empty() && add.path.is_some());
    let del = CommandExecutor::delete_path_request(p);
    assert_eq!(del.family.unwrap().afi, 1);
    assert!(del.uuid.is_empty());
    let list = CommandExecutor::list_path_request(true);
    assert_eq!(list.family.unwrap().afi, 2);
    assert_eq!(list.sort_type, 1);
    assert!(list.prefixes.is_empty() && !list.enable_filtered);
}

#[test]
fn listing_answers() {
    let p = CommandExecutor::build_path("10.0.0.0/8", "", "0.0.0.0").ok().unwrap();
    let with = ListPathResponse { destination: Some(Destination { prefix: "10.0.0.0/8".to_string(), paths: vec![p] }) };
    assert_eq!(CommandExecutor::listed_prefix(&with), Some("10.0.0.0/8".to_string()));
    let empty = ListPathResponse { destination: Some(Destination { prefix: "10.0.0.0/8".to_string(), paths: vec![] }) };
    assert_eq!(CommandExecutor::listed_prefix(&empty), None);
    assert_eq!(CommandExecutor::listed_prefix(&ListPathResponse { destination: None }), None);
}

#[test]
fn batch_counts() {
    let r = CommandExecutor::tally(&vec![true, false, true, true], 2);
    assert_eq!(r, ConcurrencyResult { ok: 3, fail: 3 });
    assert_eq!(CommandExecutor::failed_batch(7), ConcurrencyResult { ok: 0, fail: 7 });
    let sum = CommandExecutor::combine(r, ConcurrencyResult { ok: 1, fail: 0 });
    assert_eq!(sum, ConcurrencyResult { ok: 4, fail: 3 });
    let e = RouteEntry { prefix: "1.0.0.0/8".to_string(), community: "3166:156".to_string() };
    assert_eq!(e.prefix, "1.0.0.0/8");
}

#[test]
fn error_messages() {
    assert_eq!(gobgp_sync::net::NetError::NotCidr.message(), "prefix must be CIDR");
    assert_eq!(gobgp_sync::net::NetError::CommunityOutOfRange.message(), "community fields must be in 0..=65535");
    assert_eq!(gobgp_sync::install::InstallError::BadUid.message(), "failed to parse uid");
}

fn canon(s: &str) -> String {
    let cs: Vec<char> = s.chars().collect();
    gobgp_sync::ipv6::canonical_ip(&cs, true).into_iter().collect()
}

#[test]
fn ipv6_canonical_text() {
    assert_eq!(canon("2001:0DB8:0:0:0:0:0:1"), "2001:db8::1");
    assert_eq!(canon("0:0:0:0:0:0:0:0"), "::");
    assert_eq!(canon("::"), "::");
    assert_eq!(canon("0:0:0:0:0:0:0:1"), "::1");
    assert_eq!(canon("1::"), "1::");
    assert_eq!(canon("::FFFF:0102:0304"), "::ffff:1.2.3.4");
    assert_eq!(canon("::ffff:10.0.0.1"), "::ffff:10.0.0.1");
    assert_eq!(canon("1:0:0:2:0:0:3:4"), "1::2:0:0:3:4");
    assert_eq!(canon("1:0:0:2:0:0:0:4"), "1:0:0:2::4");
    assert_eq!(canon("2001:db8:0:1:1:1:1:1"), "2001:db8:0:1:1:1:1:1");
    assert_eq!(canon("64:ff9b::1.2.3.4"), "64:ff9b::102:304");
    let v4: Vec<char> = "10.0.0.0".chars().collect();
    let same: String = gobgp_sync::ipv6::canonical_ip(&v4, false).into_iter().collect();
    assert_eq!(same, "10.0.0.0");
}

fn path_address(p: &gobgp_sync::apipb::Path) -> String {
    match p.nlri.as_ref().unwrap().nlri.as_ref().unwrap() {
        Payload::Prefix(x) => x.prefix.clone(),
    }
}

#[test]
fn paths_carry_canonical_addresses() {
    let p = CommandExecutor::build_path("2001:0DB8::/32", "", "::").ok().unwrap();
    assert_eq!(path_address(&p), "2001:db8::");
    let q = CommandExecutor::build_path("2001:db8:0:0:1:0:0:0/64", "", "::").ok().unwrap();
    assert_eq!(path_address(&q), "2001:db8:0:0:1::");
    let r = CommandExecutor::build_path("192.168.1.0/24", "", "0.0.0.0").ok().unwrap();
    assert_eq!(path_address(&r), "192.168.1.0");
}

#[test]
fn buildable_prefixes_pass_the_validity_check() {
    for p in ["10.0.0.0/8", "0.0.0.0/0", "2001:db8::/32", "::/0", "::ffff:1.2.3.4/128", "1:2:3:4:5:6:7:8/64"] {
        assert!(CommandExecutor::parse_cidr(p).is_ok(), "{p}");
        assert!(PrefixExtractor::is_valid_cidr(p), "{p}");
    }
    // The validity check is looser than the route builder.
    assert!(PrefixExtractor::is_valid_cidr("zz:zz/64"));
    assert!(CommandExecutor::parse_cidr("zz:zz/64").is_err());
}
