//! Data model for BGP Network Layer Reachability Information (NLRI):
//! address families, validated network prefixes, next-hop addresses, and the
//! legacy and multiprotocol reachability records that a BGP UPDATE decoder
//! assembles, together with a lossless structural encoding of those records.

pub mod codec;
pub mod net;
pub mod nlri;

pub use nlri::MpReachableNlri;
pub use nlri::MpUnreachableNlri;
pub use nlri::NextHopAddress;
pub use nlri::Nlri;

pub use net::Afi;
pub use net::IpAddress;
pub use net::IpNetwork;
pub use net::NetworkPrefix;
pub use net::Safi;
