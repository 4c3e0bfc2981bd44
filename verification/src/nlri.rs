//! Network Layer Reachability Information records: the legacy (AFI-implicit
//! IPv4-unicast) form and the two explicit multiprotocol-extension forms.

use crate::net::Afi;
use crate::net::IpAddress;
use crate::net::NetworkPrefix;
use crate::net::IpNetwork;
use crate::net::Safi;
use vstd::prelude::*;

verus! {

/// The forwarding address carried by a reachable route. IPv6 advertisements
/// may carry a global and a link-local address as a pair.
#[derive(Debug, Clone, Copy, PartialEq, Eq, Structural)]
pub enum NextHopAddress {
    Ipv4(u32),
    Ipv6(u128),
    Ipv6LinkLocal(u128, u128),
}

impl NextHopAddress {
    /// The single representative address: for the paired IPv6 form, the global
    /// address takes precedence over the link-local one.
    pub open spec fn spec_addr(self) -> IpAddress {
        match self {
            NextHopAddress::Ipv4(a) => IpAddress::V4(a),
            NextHopAddress::Ipv6(a) => IpAddress::V6(a),
            NextHopAddress::Ipv6LinkLocal(global, _) => IpAddress::V6(global),
        }
    }

    /// What wrapping a plain address as a next hop yields.
    pub open spec fn spec_from(a: IpAddress) -> NextHopAddress {
        match a {
            IpAddress::V4(x) => NextHopAddress::Ipv4(x),
            IpAddress::V6(x) => NextHopAddress::Ipv6(x),
        }
    }

    /// The single representative address of this next hop; the global address
    /// takes precedence over the link-local one.
    pub fn addr(&self) -> (r: IpAddress)
        ensures
            r == self.spec_addr(),
    {
        match self {
            NextHopAddress::Ipv4(a) => IpAddress::V4(*a),
            NextHopAddress::Ipv6(a) => IpAddress::V6(*a),
            NextHopAddress::Ipv6LinkLocal(global, _) => IpAddress::V6(*global),
        }
    }
}

impl From<IpAddress> for NextHopAddress {
    /// Wraps a plain address as a single-address next hop of the same family.
    fn from(a: IpAddress) -> (r: NextHopAddress) {
        match a {
            IpAddress::V4(x) => NextHopAddress::Ipv4(x),
            IpAddress::V6(x) => NextHopAddress::Ipv6(x),
        }
    }
}

impl vstd::std_specs::convert::FromSpecImpl<IpAddress> for NextHopAddress {
    open spec fn obeys_from_spec() -> bool {
        true
    }

    open spec fn from_spec(a: IpAddress) -> NextHopAddress {
        NextHopAddress::spec_from(a)
    }
}

/// Law: wrapping an address as a next hop and taking the representative
/// address back is the identity, whichever family the address belongs to.
pub broadcast proof fn lemma_next_hop_addr_of_from(a: IpAddress)
    ensures
        (#[trigger] NextHopAddress::spec_from(a)).spec_addr() == a,
{
}

/// The legacy, AFI-implicit reachability record: one address family, one
/// sub-address-family, an optional next hop, and the announced or withdrawn
/// prefixes in wire order. Presence of the next hop is the sole discriminator
/// of reachable against withdrawn.
#[derive(Debug, Clone, PartialEq, Eq)]
pub struct Nlri {
    pub afi: Afi,
    pub safi: Safi,
    pub next_hop: Option<NextHopAddress>,
    pub prefixes: Vec<NetworkPrefix>,
}

/// The abstract state of a legacy record: exactly its four fields, with the
/// prefixes as a sequence.
#[verifier::ext_equal]
pub struct NlriView {
    pub afi: Afi,
    pub safi: Safi,
    pub next_hop: Option<NextHopAddress>,
    pub prefixes: Seq<NetworkPrefix>,
}

impl View for Nlri {
    type V = NlriView;

    open spec fn view(&self) -> NlriView {
        NlriView {
            afi: self.afi,
            safi: self.safi,
            next_hop: self.next_hop,
            prefixes: self.prefixes@,
        }
    }
}

impl Nlri {
    /// Every stored prefix belongs to the record's address family.
    pub open spec fn wf(self) -> bool {
        forall|i: int|
            0 <= i < self.prefixes@.len() ==> (#[trigger] self.prefixes@[i]).spec_family()
                == self.afi
    }

    /// True iff this record refers to the IPv4 address space.
    pub fn is_ipv4(&self) -> (r: bool)
        ensures
            r == (self.afi == Afi::Ipv4),
    {
        matches!(self.afi, Afi::Ipv4)
    }

    /// True iff this record refers to the IPv6 address space.
    pub fn is_ipv6(&self) -> (r: bool)
        ensures
            r == (self.afi == Afi::Ipv6),
    {
        matches!(self.afi, Afi::Ipv6)
    }

    /// True iff this record announces reachable prefixes, that is, iff it
    /// carries a next hop.
    pub fn is_reachable(&self) -> (r: bool)
        ensures
            r == (self.next_hop is Some),
    {
        self.next_hop.is_some()
    }

    /// The forwarding address of a reachable record: the representative
    /// address of the stored next hop.
    ///
    /// Callers must establish `is_reachable()` first; asking a withdrawn
    /// record for a next hop is a contract violation, not a data error, so the
    /// precondition rules it out and unverified callers that break it abort.
    pub fn next_hop_addr(&self) -> (r: IpAddress)
        requires
            self.next_hop is Some,
        ensures
            self.next_hop matches Some(nh) && r == nh.spec_addr(),
    {
        match &self.next_hop {
            Some(nh) => nh.addr(),
            None => vstd::pervasive::unreached(),
        }
    }

    /// Builds a reachable (or, with an absent next hop, withdrawn) legacy
    /// record around a single prefix. The address family is derived from the
    /// prefix itself, never from the next hop, so the record cannot be built
    /// with a family that contradicts its prefix.
    pub fn new_reachable(prefix: NetworkPrefix, next_hop: Option<IpAddress>) -> (r: Nlri)
        ensures
            r.afi == prefix.spec_family(),
            prefix.spec_network() is V4 ==> r.afi == Afi::Ipv4,
            prefix.spec_network() is V6 ==> r.afi == Afi::Ipv6,
            r.safi == Safi::Unicast,
            r.prefixes@.len() == 1 && r.prefixes@[0] == prefix,
            r.next_hop is Some <==> next_hop is Some,
            next_hop matches Some(a) ==> r.next_hop == Some(NextHopAddress::spec_from(a)),
            r.wf(),
    {
        let nh = match next_hop {
            Some(a) => Some(NextHopAddress::from(a)),
            None => None,
        };
        let afi = match prefix.network() {
            IpNetwork::V4 { .. } => Afi::Ipv4,
            IpNetwork::V6 { .. } => Afi::Ipv6,
        };
        let mut prefixes: Vec<NetworkPrefix> = Vec::new();
        prefixes.push(prefix);
        Nlri { afi, safi: Safi::Unicast, next_hop: nh, prefixes }
    }

    /// Builds a withdrawn legacy record around a single prefix: the address
    /// family is derived from the prefix and no next hop is stored.
    pub fn new_unreachable(prefix: NetworkPrefix) -> (r: Nlri)
        ensures
            r.afi == prefix.spec_family(),
            prefix.spec_network() is V4 ==> r.afi == Afi::Ipv4,
            prefix.spec_network() is V6 ==> r.afi == Afi::Ipv6,
            r.safi == Safi::Unicast,
            r.prefixes@.len() == 1 && r.prefixes@[0] == prefix,
            r.next_hop is None,
            r.wf(),
    {
        let afi = match prefix.network() {
            IpNetwork::V4 { .. } => Afi::Ipv4,
            IpNetwork::V6 { .. } => Afi::Ipv6,
        };
        let mut prefixes: Vec<NetworkPrefix> = Vec::new();
        prefixes.push(prefix);
        Nlri { afi, safi: Safi::Unicast, next_hop: None, prefixes }
    }

    /// Borrowed single-pass iteration: the stored prefixes' network values,
    /// in insertion order, one per stored prefix.
    pub fn networks(&self) -> (r: Vec<IpNetwork>)
        ensures
            r@.len() == self.prefixes@.len(),
            forall|i: int| 0 <= i < r@.len() ==> r@[i] == self.prefixes@[i].spec_network(),
    {
        let mut out: Vec<IpNetwork> = Vec::new();
        let mut i: usize = 0;
        while i < self.prefixes.len()
            invariant
                i <= self.prefixes@.len(),
                out@.len() == i,
                forall|j: int| 0 <= j < i ==> out@[j] == self.prefixes@[j].spec_network(),
            decreases self.prefixes@.len() - i,
        {
            out.push(self.prefixes[i].network());
            i += 1;
        }
        out
    }

    /// Consuming iteration: the same sequence, in the same order, as the
    /// borrowed form.
    pub fn into_networks(self) -> (r: Vec<IpNetwork>)
        ensures
            r@.len() == self.prefixes@.len(),
            forall|i: int| 0 <= i < r@.len() ==> r@[i] == self.prefixes@[i].spec_network(),
    {
        self.networks()
    }
}

/// The explicit multiprotocol advertisement: the address family is stated by
/// the wire encoding rather than derived, and a next hop is always present —
/// reachability is structural.
#[derive(Debug, Clone, PartialEq)]
pub struct MpReachableNlri {
    afi: Afi,
    safi: Safi,
    next_hop: NextHopAddress,
    prefixes: Vec<NetworkPrefix>,
}

/// The abstract state of a multiprotocol advertisement: exactly its four
/// stored fields, the next hop mandatory.
#[verifier::ext_equal]
pub struct MpReachableNlriView {
    pub afi: Afi,
    pub safi: Safi,
    pub next_hop: NextHopAddress,
    pub prefixes: Seq<NetworkPrefix>,
}

impl View for MpReachableNlri {
    type V = MpReachableNlriView;

    closed spec fn view(&self) -> MpReachableNlriView {
        MpReachableNlriView {
            afi: self.afi,
            safi: self.safi,
            next_hop: self.next_hop,
            prefixes: self.prefixes@,
        }
    }
}

impl MpReachableNlri {
    /// Stores the given fields verbatim; consistency of the inputs is the
    /// decoder's responsibility, which the wire encoding guarantees.
    pub fn new(afi: Afi, safi: Safi, next_hop: NextHopAddress, prefixes: Vec<NetworkPrefix>) -> (r:
        MpReachableNlri)
        ensures
            r@ == (MpReachableNlriView { afi, safi, next_hop, prefixes: prefixes@ }),
    {
        MpReachableNlri { afi, safi, next_hop, prefixes }
    }

    /// The stored address family.
    pub fn afi(&self) -> (r: Afi)
        ensures
            r == self@.afi,
    {
        self.afi
    }

    /// The stored sub-address-family.
    pub fn safi(&self) -> (r: Safi)
        ensures
            r == self@.safi,
    {
        self.safi
    }

    /// The stored next hop; always present on an advertisement.
    pub fn next_hop(&self) -> (r: NextHopAddress)
        ensures
            r == self@.next_hop,
    {
        self.next_hop
    }

    /// The stored prefixes, in wire order.
    pub fn prefixes(&self) -> (r: &Vec<NetworkPrefix>)
        ensures
            r@ == self@.prefixes,
    {
        &self.prefixes
    }
}

/// Law: the abstract state of an advertisement record is exactly the four
/// stored fields; no construction path can attach anything beyond them.
pub proof fn lemma_mp_reachable_fields_determine(a: MpReachableNlri, b: MpReachableNlri)
    requires
        a@.afi == b@.afi,
        a@.safi == b@.safi,
        a@.next_hop == b@.next_hop,
        a@.prefixes == b@.prefixes,
    ensures
        a@ == b@,
{
    assert(a@ =~= b@);
}

/// The explicit multiprotocol withdrawal: address family, sub-address-family
/// and prefixes only. The type has no next-hop field, so a withdrawal carrying
/// a forwarding address is unrepresentable, not merely forbidden.
#[derive(Debug, Clone, PartialEq)]
pub struct MpUnreachableNlri {
    afi: Afi,
    safi: Safi,
    prefixes: Vec<NetworkPrefix>,
}

/// The abstract state of a multiprotocol withdrawal: address family,
/// sub-address-family and prefixes, nothing else. In particular no next hop
/// exists in it.
#[verifier::ext_equal]
pub struct MpUnreachableNlriView {
    pub afi: Afi,
    pub safi: Safi,
    pub prefixes: Seq<NetworkPrefix>,
}

impl View for MpUnreachableNlri {
    type V = MpUnreachableNlriView;

    closed spec fn view(&self) -> MpUnreachableNlriView {
        MpUnreachableNlriView { afi: self.afi, safi: self.safi, prefixes: self.prefixes@ }
    }
}

impl MpUnreachableNlri {
    /// Stores the given fields verbatim; consistency of the inputs is the
    /// decoder's responsibility, which the wire encoding guarantees.
    pub fn new(afi: Afi, safi: Safi, prefixes: Vec<NetworkPrefix>) -> (r: MpUnreachableNlri)
        ensures
            r@ == (MpUnreachableNlriView { afi, safi, prefixes: prefixes@ }),
    {
        MpUnreachableNlri { afi, safi, prefixes }
    }

    /// The stored address family.
    pub fn afi(&self) -> (r: Afi)
        ensures
            r == self@.afi,
    {
        self.afi
    }

    /// The stored sub-address-family.
    pub fn safi(&self) -> (r: Safi)
        ensures
            r == self@.safi,
    {
        self.safi
    }

    /// The stored prefixes, in wire order.
    pub fn prefixes(&self) -> (r: &Vec<NetworkPrefix>)
        ensures
            r@ == self@.prefixes,
    {
        &self.prefixes
    }
}

/// Law: the abstract state of a withdrawal record is exactly its address
/// family, sub-address-family and prefixes. No construction path can attach a
/// next hop to it: the record holds nothing besides these three fields.
pub proof fn lemma_mp_unreachable_fields_determine(a: MpUnreachableNlri, b: MpUnreachableNlri)
    requires
        a@.afi == b@.afi,
        a@.safi == b@.safi,
        a@.prefixes == b@.prefixes,
    ensures
        a@ == b@,
{
    assert(a@ =~= b@);
}

} // verus!
