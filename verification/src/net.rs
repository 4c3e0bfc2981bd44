//! Address families and validated network prefixes: the atomic units of
//! reachability that NLRI records aggregate.

use vstd::prelude::*;

verus! {

/// Address Family Identifier: which network-layer protocol's addresses are in
/// use. A closed set; an unrecognized wire value is the decoder's error, not
/// representable here.
#[derive(Debug, Clone, Copy, PartialEq, Eq, Structural)]
pub enum Afi {
    Ipv4,
    Ipv6,
}

/// Subsequent Address Family Identifier: further qualifies an AFI with the
/// forwarding class of the carried prefixes. A closed set.
#[derive(Debug, Clone, Copy, PartialEq, Eq, Structural)]
pub enum Safi {
    Unicast,
    Multicast,
    UnicastMulticast,
}

/// An IP address as a plain numeric value, tagged with its family.
#[derive(Debug, Clone, Copy, PartialEq, Eq, Structural)]
pub enum IpAddress {
    V4(u32),
    V6(u128),
}

impl IpAddress {
    /// The address family this address belongs to.
    pub open spec fn family(self) -> Afi {
        match self {
            IpAddress::V4(_) => Afi::Ipv4,
            IpAddress::V6(_) => Afi::Ipv6,
        }
    }

    /// Builds an IPv4 address from its four dotted-quad octets.
    pub fn v4_from_octets(a: u8, b: u8, c: u8, d: u8) -> (r: IpAddress)
        ensures
            r == IpAddress::V4(
                (a as u32 * 0x1000000 + b as u32 * 0x10000 + c as u32 * 0x100 + d as u32) as u32,
            ),
    {
        IpAddress::V4(a as u32 * 0x1000000 + b as u32 * 0x10000 + c as u32 * 0x100 + d as u32)
    }
}

/// A network value: a base address and a prefix length, for either address
/// family.
#[derive(Debug, Clone, Copy, PartialEq, Eq, Structural)]
#[allow(inconsistent_fields)]
pub enum IpNetwork {
    V4 { addr: u32, len: u8 },
    V6 { addr: u128, len: u8 },
}

impl IpNetwork {
    /// Well-formed: the prefix length does not exceed the address width.
    pub open spec fn wf(self) -> bool {
        match self {
            IpNetwork::V4 { addr, len } => len <= 32,
            IpNetwork::V6 { addr, len } => len <= 128,
        }
    }

    /// The address family this network belongs to.
    pub open spec fn family(self) -> Afi {
        match self {
            IpNetwork::V4 { .. } => Afi::Ipv4,
            IpNetwork::V6 { .. } => Afi::Ipv6,
        }
    }

    /// Executable view of [`IpNetwork::family`].
    pub fn afi(&self) -> (r: Afi)
        ensures
            r == self.family(),
    {
        match self {
            IpNetwork::V4 { .. } => Afi::Ipv4,
            IpNetwork::V6 { .. } => Afi::Ipv6,
        }
    }
}

/// What parsing a piece of network text yields: the network value for
/// well-formed "address/length" text, absent otherwise.
pub uninterp spec fn net_of_text(s: Seq<char>) -> Option<IpNetwork>;

/// Relies on `ipnet::IpNet`'s `FromStr`: parses "address/length" network text
/// for both families. A parsed `Ipv4Net`/`Ipv6Net` carries a prefix length no
/// greater than the address width, which its constructor enforces.
#[verifier::external_body]
fn parse_network_text(s: &str) -> (r: Option<IpNetwork>)
    ensures
        r == net_of_text(s@),
        r matches Some(n) ==> n.wf(),
{
    match s.parse::<ipnet::IpNet>() {
        Ok(ipnet::IpNet::V4(n)) => Some(IpNetwork::V4 {
            addr: u32::from(n.addr()),
            len: n.prefix_len(),
        }),
        Ok(ipnet::IpNet::V6(n)) => Some(IpNetwork::V6 {
            addr: u128::from(n.addr()),
            len: n.prefix_len(),
        }),
        Err(_) => None,
    }
}

/// One announced or withdrawn route: a validated network value. No invalid
/// state is representable: construction either succeeds with a well-formed
/// network or fails.
#[derive(Debug, Clone, Copy, PartialEq, Eq)]
pub struct NetworkPrefix {
    net: IpNetwork,
}

impl NetworkPrefix {
    /// Every value of this type holds a well-formed network.
    #[verifier::type_invariant]
    pub closed spec fn wf(self) -> bool {
        self.net.wf()
    }

    /// The underlying network value.
    pub closed spec fn spec_network(self) -> IpNetwork {
        self.net
    }

    /// The address family, read off the underlying network value.
    pub open spec fn spec_family(self) -> Afi {
        self.spec_network().family()
    }

    /// Spec-level constructor, for stating what decoding yields.
    pub closed spec fn spec_new(net: IpNetwork) -> NetworkPrefix {
        NetworkPrefix { net }
    }

    /// Validating constructor: succeeds exactly on well-formed networks.
    pub fn new(net: IpNetwork) -> (r: Option<NetworkPrefix>)
        ensures
            net.wf() ==> r == Some(NetworkPrefix::spec_new(net)),
            !net.wf() ==> r is None,
    {
        let ok = match net {
            IpNetwork::V4 { addr: _, len } => len <= 32,
            IpNetwork::V6 { addr: _, len } => len <= 128,
        };
        if ok {
            Some(NetworkPrefix { net })
        } else {
            None
        }
    }

    /// Parses network text such as "10.0.2.0/24" or "2001:db8::/32"; yields
    /// nothing exactly on text that is not a well-formed network.
    pub fn from_str(s: &str) -> (r: Option<NetworkPrefix>)
        ensures
            match r {
                Some(p) => net_of_text(s@) == Some(p.spec_network()) && p.wf(),
                None => net_of_text(s@) is None,
            },
    {
        match parse_network_text(s) {
            Some(n) => Some(NetworkPrefix { net: n }),
            None => None,
        }
    }

    /// The underlying network value.
    pub fn network(&self) -> (r: IpNetwork)
        ensures
            r == self.spec_network(),
    {
        self.net
    }

    /// Executable view of [`NetworkPrefix::spec_family`].
    pub fn afi(&self) -> (r: Afi)
        ensures
            r == self.spec_family(),
    {
        self.net.afi()
    }
}

/// Building a prefix from a network value and reading it back is the identity.
pub broadcast proof fn lemma_prefix_of_network(net: IpNetwork)
    ensures
        (#[trigger] NetworkPrefix::spec_new(net)).spec_network() == net,
{
}

/// A prefix is well formed exactly when its underlying network is.
pub broadcast proof fn lemma_prefix_wf(p: NetworkPrefix)
    ensures
        #[trigger] p.wf() <==> p.spec_network().wf(),
{
}

/// Rebuilding a prefix from its own network value yields the prefix itself.
pub broadcast proof fn lemma_network_of_prefix(p: NetworkPrefix)
    ensures
        NetworkPrefix::spec_new(#[trigger] p.spec_network()) == p,
{
}

} // verus!
