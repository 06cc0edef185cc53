//! Requests to the GoBGP API: paths for announcing and withdrawing routes,
//! and the counting of a batch's outcomes.
use vstd::prelude::*;

use crate::apipb::{
    AddPathRequest, Afi, Attr, Attribute, CommunitiesAttribute, DeletePathRequest, Family,
    ListPathRequest, ListPathResponse, NextHopAttribute, Nlri, OriginAttribute, Path, Payload,
    Safi, SortType, TableType, IpAddressPrefix,
};
use crate::config::{next_hop_for, Settings};
use crate::net::{cidr_spec, community_value, ip_family, NetError, Cidr};
use crate::net::ip_family_of;
use crate::ipv6::{canonical_ip, canonical_ip_text};
use crate::text::{
    chars_of, contains_char, parse_uint_chars, split_once_chars, string_of, trim, trim_chars,
};

verus! {

/// What a batch of API calls achieved.
#[derive(Clone, Copy, PartialEq, Eq, Structural, Debug)]
pub struct ConcurrencyResult {
    pub ok: u32,
    pub fail: u32,
}

/// A route: prefix and community (`ASN:VALUE`, or empty).
#[derive(Clone, Debug)]
pub struct RouteEntry {
    pub prefix: String,
    pub community: String,
}

/// The attributes of a path: origin IGP, the next hop, and the community
/// when one is given (not blank).
pub open spec fn attrs_ok(a: Seq<Attribute>, community: Seq<char>, next_hop: Seq<char>) -> bool {
    &&& a.len() == if trim(community).len() == 0 {
        2int
    } else {
        3int
    }
    &&& a[0].attr matches Some(Attr::Origin(o)) && o.origin == 0
    &&& a[1].attr matches Some(Attr::NextHop(h)) && h.next_hop@ == next_hop
    &&& trim(community).len() > 0 ==> (a[2].attr matches Some(Attr::Communities(c))
        && c.communities@ == seq![community_value(community)->Ok_0 as u32])
}

/// `p` is the unicast path for `prefix` with `community` and `next_hop`; the
/// address is written in its canonical form.
pub open spec fn path_ok(p: Path, prefix: Seq<char>, community: Seq<char>, next_hop: Seq<char>) -> bool {
    match cidr_spec(prefix) {
        Ok((v6, ip, len)) => {
            &&& p.nlri matches Some(n) && n.nlri matches Some(Payload::Prefix(x)) && x.prefix_len
                == len && x.prefix@ == canonical_ip_text(ip, v6)
            &&& p.family == Some(
                Family {
                    afi: if v6 {
                        2i32
                    } else {
                        1i32
                    },
                    safi: 1i32,
                },
            )
            &&& !p.is_withdraw
            &&& !p.no_implicit_withdraw
            &&& attrs_ok(p.pattrs@, community, next_hop)
        },
        Err(_) => false,
    }
}

/// Why no path could be built: the refusal of the prefix, else of the
/// community.
pub open spec fn path_error(prefix: Seq<char>, community: Seq<char>) -> Option<NetError> {
    match cidr_spec(prefix) {
        Err(e) => Some(e),
        Ok(_) => if trim(community).len() == 0 {
            None
        } else {
            match community_value(community) {
                Err(e) => Some(e),
                Ok(_) => None,
            }
        },
    }
}

/// Talks to the GoBGP API.
pub struct CommandExecutor;

impl CommandExecutor {
    /// Splits `ip/len` into family, address and length.
    pub fn parse_cidr(prefix: &str) -> (r: Result<Cidr, NetError>)
        ensures
            match r {
                Ok(c) => cidr_spec(prefix@) == Ok::<(bool, Seq<char>, nat), NetError>(
                    (c.is_ipv6, c.ip@, c.prefix_len as nat),
                ),
                Err(e) => cidr_spec(prefix@) == Err::<(bool, Seq<char>, nat), NetError>(e),
            },
    {
        let p = chars_of(prefix);
        let (ip, len) = match split_once_chars(p.as_slice(), '/') {
            Some(x) => x,
            None => {
                return Err(NetError::NotCidr);
            },
        };
        let fam = ip_family_of(ip.as_slice());
        if fam == 0 {
            return Err(NetError::BadAddress);
        }
        let n = match parse_uint_chars(len.as_slice(), 0xffff_ffff) {
            Some(n) => n,
            None => {
                return Err(NetError::BadLength);
            },
        };
        let max: u64 = if fam == 6 {
            128
        } else {
            32
        };
        if n > max {
            return Err(NetError::LengthTooLong);
        }
        Ok(Cidr { is_ipv6: fam == 6, ip: string_of(ip.as_slice()), prefix_len: n as u32 })
    }

    /// Encodes a community `ASN:VALUE` as the 32-bit number
    /// `ASN << 16 | VALUE`.
    pub fn community_to_u32(community: &str) -> (r: Result<u32, NetError>)
        ensures
            match r {
                Ok(n) => community_value(community@) == Ok::<nat, NetError>(n as nat),
                Err(e) => community_value(community@) == Err::<nat, NetError>(e),
            },
    {
        let c = chars_of(community);
        let (a, v) = match split_once_chars(c.as_slice(), ':') {
            Some(x) => x,
            None => {
                return Err(NetError::NotCommunity);
            },
        };
        let x = parse_uint_chars(a.as_slice(), 0xffff_ffff);
        let y = parse_uint_chars(v.as_slice(), 0xffff_ffff);
        match (x, y) {
            (Some(x), Some(y)) => {
                if x > 65535 || y > 65535 {
                    Err(NetError::CommunityOutOfRange)
                } else {
                    Ok((x * 65536 + y) as u32)
                }
            },
            _ => Err(NetError::BadCommunityNumber),
        }
    }

    /// The unicast path for `prefix` (its address in canonical text) with
    /// origin IGP, `next_hop` and, when `community` is not blank, that
    /// community.
    pub fn build_path(prefix: &str, community: &str, next_hop: &str) -> (r: Result<Path, NetError>)
        ensures
            match r {
                Ok(p) => path_error(prefix@, community@) is None && path_ok(
                    p,
                    prefix@,
                    community@,
                    next_hop@,
                ),
                Err(e) => path_error(prefix@, community@) == Some(e),
            },
    {
        let cidr = match CommandExecutor::parse_cidr(prefix) {
            Ok(c) => c,
            Err(e) => {
                return Err(e);
            },
        };
        let afi = if cidr.is_ipv6 {
            Afi::Ip6
        } else {
            Afi::Ip
        };
        let address = string_of(canonical_ip(chars_of(cidr.ip.as_str()).as_slice(), cidr.is_ipv6).as_slice());
        let family = Family { afi: afi.code(), safi: Safi::Unicast.code() };
        let mut pattrs: Vec<Attribute> = Vec::new();
        pattrs.push(Attribute { attr: Some(Attr::Origin(OriginAttribute { origin: 0 })) });
        pattrs.push(
            Attribute { attr: Some(Attr::NextHop(NextHopAttribute { next_hop: next_hop.to_owned() })) },
        );
        let c = chars_of(community);
        if trim_chars(c.as_slice()).len() > 0 {
            let value = match CommandExecutor::community_to_u32(community) {
                Ok(v) => v,
                Err(e) => {
                    return Err(e);
                },
            };
            let mut communities: Vec<u32> = Vec::new();
            communities.push(value);
            pattrs.push(
                Attribute { attr: Some(Attr::Communities(CommunitiesAttribute { communities })) },
            );
            assert(communities@ =~= seq![value]);
        }
        Ok(
            Path {
                nlri: Some(
                    Nlri {
                        nlri: Some(
                            Payload::Prefix(
                                IpAddressPrefix { prefix_len: cidr.prefix_len, prefix: address },
                            ),
                        ),
                    },
                ),
                pattrs,
                is_withdraw: false,
                no_implicit_withdraw: false,
                family: Some(family),
            },
        )
    }

    /// `AddPath` of `path` into the global RIB.
    pub fn add_path_request(path: Path) -> (r: AddPathRequest)
        ensures
            r.table_type == 1,
            r.vrf_id@.len() == 0,
            r.path == Some(path),
    {
        AddPathRequest { table_type: TableType::Global.code(), vrf_id: String::new(), path: Some(path) }
    }

    /// `DeletePath` of `path` from the global RIB, by prefix, family and next
    /// hop (no UUID).
    pub fn delete_path_request(path: Path) -> (r: DeletePathRequest)
        ensures
            r.table_type == 1,
            r.vrf_id@.len() == 0,
            r.family == path.family,
            r.path == Some(path),
            r.uuid@.len() == 0,
    {
        let family = path.family;
        DeletePathRequest {
            table_type: TableType::Global.code(),
            vrf_id: String::new(),
            family,
            path: Some(path),
            uuid: Vec::new(),
        }
    }

    /// `ListPath` of the global unicast RIB of a family, sorted by prefix.
    pub fn list_path_request(is_ipv6: bool) -> (r: ListPathRequest)
        ensures
            r.table_type == 1,
            r.name@.len() == 0,
            r.family == Some(
                Family {
                    afi: if is_ipv6 {
                        2i32
                    } else {
                        1i32
                    },
                    safi: 1i32,
                },
            ),
            r.prefixes@.len() == 0,
            r.sort_type == 1,
            !r.enable_filtered,
            !r.enable_nlri_binary,
            !r.enable_attribute_binary,
            !r.enable_only_binary,
    {
        let afi = if is_ipv6 {
            Afi::Ip6
        } else {
            Afi::Ip
        };
        ListPathRequest {
            table_type: TableType::Global.code(),
            name: String::new(),
            family: Some(Family { afi: afi.code(), safi: Safi::Unicast.code() }),
            prefixes: Vec::new(),
            sort_type: SortType::Prefix.code(),
            enable_filtered: false,
            enable_nlri_binary: false,
            enable_attribute_binary: false,
            enable_only_binary: false,
        }
    }

    /// The prefix a listing answer reports: that of a destination with a
    /// prefix and at least one path.
    pub fn listed_prefix(resp: &ListPathResponse) -> (r: Option<String>)
        ensures
            match r {
                Some(p) => resp.destination matches Some(d) && d.prefix@.len() > 0 && d.paths@.len()
                    > 0 && p@ == d.prefix@,
                None => !(resp.destination matches Some(d) && d.prefix@.len() > 0 && d.paths@.len()
                    > 0),
            },
    {
        match &resp.destination {
            Some(d) => {
                let pv = chars_of(d.prefix.as_str());
                if pv.len() > 0 && d.paths.len() > 0 {
                    Some(d.prefix.clone())
                } else {
                    None
                }
            },
            None => None,
        }
    }

    /// Next hop for a route: by its community's country code, for the
    /// family that a `:` in the prefix marks.
    pub fn next_hop_for_entry(settings: &Settings, entry: &RouteEntry) -> (r: String)
        requires
            settings.wf(),
        ensures
            r@ == next_hop_for(
                if entry.prefix@.contains(':') {
                    settings.community_nexthop_ipv6@
                } else {
                    settings.community_nexthop_ipv4@
                },
                if entry.prefix@.contains(':') {
                    settings.gobgp_nexthop_ipv6@
                } else {
                    settings.gobgp_nexthop_ipv4@
                },
                entry.community@,
            ),
    {
        let p = chars_of(entry.prefix.as_str());
        let is_ipv6 = contains_char(p.as_slice(), ':');
        settings.next_hop_for_community(entry.community.as_str(), is_ipv6)
    }

    /// A whole batch counted as failed (no API connection).
    pub fn failed_batch(total: usize) -> (r: ConcurrencyResult)
        ensures
            r.ok == 0,
            r.fail == total as u32,
    {
        ConcurrencyResult { ok: 0, fail: total as u32 }
    }

    /// Counts the outcomes of the calls of a batch: `true` is a success; the
    /// calls that never started count as failures too.
    pub fn tally(outcomes: &Vec<bool>, not_started: u32) -> (r: ConcurrencyResult)
        requires
            outcomes.len() + not_started <= u32::MAX,
        ensures
            r.ok == outcomes@.filter(|b: bool| b).len(),
            r.fail == not_started + outcomes@.filter(|b: bool| !b).len(),
    {
        let mut ok: u32 = 0;
        let mut fail: u32 = not_started;
        let mut i: usize = 0;
        while i < outcomes.len()
            invariant
                i <= outcomes.len(),
                outcomes.len() + not_started <= u32::MAX,
                ok == outcomes@.take(i as int).filter(|b: bool| b).len(),
                fail == not_started + outcomes@.take(i as int).filter(|b: bool| !b).len(),
                ok + fail == not_started + i,
            decreases outcomes.len() - i,
        {
            assert(outcomes@.take(i + 1) == outcomes@.take(i as int).push(outcomes@[i as int]));
            proof {
                outcomes@.take(i as int).lemma_filter_push(outcomes@[i as int], |b: bool| b);
                outcomes@.take(i as int).lemma_filter_push(outcomes@[i as int], |b: bool| !b);
            }
            if outcomes[i] {
                ok += 1;
            } else {
                fail += 1;
            }
            i += 1;
        }
        assert(outcomes@.take(outcomes.len() as int) == outcomes@);
        ConcurrencyResult { ok, fail }
    }

    /// The outcome of deleting then adding: the sums.
    pub fn combine(a: ConcurrencyResult, b: ConcurrencyResult) -> (r: ConcurrencyResult)
        requires
            a.ok + b.ok <= u32::MAX,
            a.fail + b.fail <= u32::MAX,
        ensures
            r.ok == a.ok + b.ok,
            r.fail == a.fail + b.fail,
    {
        ConcurrencyResult { ok: a.ok + b.ok, fail: a.fail + b.fail }
    }
}

} // verus!
