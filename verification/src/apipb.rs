//! The messages of the GoBGP API that the library builds and reads
//! (`AddPath`, `DeletePath`, `ListPath`), as plain values. Enumerations are
//! carried as their wire numbers, as in the protocol.
use vstd::prelude::*;

verus! {

/// Address family identifier.
#[derive(Clone, Copy, PartialEq, Eq, Structural, Debug)]
pub enum Afi {
    Unspecified,
    Ip,
    Ip6,
}

impl Afi {
    /// Wire number: 0, 1, 2.
    pub fn code(&self) -> (r: i32)
        ensures
            r == match *self {
                Afi::Unspecified => 0i32,
                Afi::Ip => 1i32,
                Afi::Ip6 => 2i32,
            },
    {
        match self {
            Afi::Unspecified => 0,
            Afi::Ip => 1,
            Afi::Ip6 => 2,
        }
    }
}

/// Subsequent address family identifier.
#[derive(Clone, Copy, PartialEq, Eq, Structural, Debug)]
pub enum Safi {
    Unspecified,
    Unicast,
}

impl Safi {
    /// Wire number: 0, 1.
    pub fn code(&self) -> (r: i32)
        ensures
            r == match *self {
                Safi::Unspecified => 0i32,
                Safi::Unicast => 1i32,
            },
    {
        match self {
            Safi::Unspecified => 0,
            Safi::Unicast => 1,
        }
    }
}

#[derive(Clone, Copy, PartialEq, Eq, Structural, Debug)]
pub struct Family {
    pub afi: i32,
    pub safi: i32,
}

/// RIB selector.
#[derive(Clone, Copy, PartialEq, Eq, Structural, Debug)]
pub enum TableType {
    Unspecified,
    Global,
}

impl TableType {
    /// Wire number: 0, 1.
    pub fn code(&self) -> (r: i32)
        ensures
            r == match *self {
                TableType::Unspecified => 0i32,
                TableType::Global => 1i32,
            },
    {
        match self {
            TableType::Unspecified => 0,
            TableType::Global => 1,
        }
    }
}

#[derive(Clone, Debug)]
pub struct IpAddressPrefix {
    pub prefix_len: u32,
    pub prefix: String,
}

/// Payload of an NLRI.
#[derive(Clone, Debug)]
pub enum Payload {
    Prefix(IpAddressPrefix),
}

#[derive(Clone, Debug)]
pub struct Nlri {
    pub nlri: Option<Payload>,
}

#[derive(Clone, Copy, PartialEq, Eq, Structural, Debug)]
pub struct OriginAttribute {
    pub origin: u32,
}

#[derive(Clone, Debug)]
pub struct NextHopAttribute {
    pub next_hop: String,
}

#[derive(Clone, Debug)]
pub struct CommunitiesAttribute {
    pub communities: Vec<u32>,
}

/// One path attribute.
#[derive(Clone, Debug)]
pub enum Attr {
    Origin(OriginAttribute),
    NextHop(NextHopAttribute),
    Communities(CommunitiesAttribute),
}

#[derive(Clone, Debug)]
pub struct Attribute {
    pub attr: Option<Attr>,
}

#[derive(Clone, Debug)]
pub struct Path {
    pub nlri: Option<Nlri>,
    pub pattrs: Vec<Attribute>,
    pub is_withdraw: bool,
    pub no_implicit_withdraw: bool,
    pub family: Option<Family>,
}

#[derive(Clone, Debug)]
pub struct AddPathRequest {
    pub table_type: i32,
    pub vrf_id: String,
    pub path: Option<Path>,
}

#[derive(Clone, Debug)]
pub struct AddPathResponse {
    pub uuid: Vec<u8>,
}

#[derive(Clone, Debug)]
pub struct DeletePathRequest {
    pub table_type: i32,
    pub vrf_id: String,
    pub family: Option<Family>,
    pub path: Option<Path>,
    pub uuid: Vec<u8>,
}

#[derive(Clone, Copy, Debug)]
pub struct DeletePathResponse {}

/// How a looked-up prefix is matched.
#[derive(Clone, Copy, PartialEq, Eq, Structural, Debug)]
pub enum Type {
    Unspecified,
    Exact,
    Longer,
    Shorter,
}

#[derive(Clone, Debug)]
pub struct TableLookupPrefix {
    pub prefix: String,
    /// Wire number of a `Type`.
    pub lookup_type: i32,
}

/// Order of a path listing.
#[derive(Clone, Copy, PartialEq, Eq, Structural, Debug)]
pub enum SortType {
    Unspecified,
    Prefix,
}

impl SortType {
    /// Wire number: 0, 1.
    pub fn code(&self) -> (r: i32)
        ensures
            r == match *self {
                SortType::Unspecified => 0i32,
                SortType::Prefix => 1i32,
            },
    {
        match self {
            SortType::Unspecified => 0,
            SortType::Prefix => 1,
        }
    }
}

#[derive(Clone, Debug)]
pub struct ListPathRequest {
    pub table_type: i32,
    pub name: String,
    pub family: Option<Family>,
    pub prefixes: Vec<TableLookupPrefix>,
    pub sort_type: i32,
    pub enable_filtered: bool,
    pub enable_nlri_binary: bool,
    pub enable_attribute_binary: bool,
    pub enable_only_binary: bool,
}

#[derive(Clone, Debug)]
pub struct Destination {
    pub prefix: String,
    pub paths: Vec<Path>,
}

#[derive(Clone, Debug)]
pub struct ListPathResponse {
    pub destination: Option<Destination>,
}

} // verus!
