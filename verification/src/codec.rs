//! A lossless structural encoding of the NLRI records as sequences of plain
//! 64-bit words, field for field, and its decoder. Encoding and decoding are
//! proved to round-trip exactly, so a record that crosses a process or
//! language boundary in this form comes back equal to the original.

use crate::net::Afi;
use crate::net::IpNetwork;
use crate::net::NetworkPrefix;
use crate::net::Safi;
use crate::net::lemma_network_of_prefix;
use crate::net::lemma_prefix_wf;
use crate::nlri::MpReachableNlri;
use crate::nlri::MpReachableNlriView;
use crate::nlri::MpUnreachableNlri;
use crate::nlri::MpUnreachableNlriView;
use crate::nlri::NextHopAddress;
use crate::nlri::Nlri;
use crate::nlri::NlriView;
use vstd::arithmetic::div_mod::lemma_fundamental_div_mod;
use vstd::prelude::*;

verus! {

/// The upper 64 bits of a 128-bit value.
pub open spec fn hi64(x: u128) -> u64 {
    (x / 0x1_0000_0000_0000_0000) as u64
}

/// The lower 64 bits of a 128-bit value.
pub open spec fn lo64(x: u128) -> u64 {
    (x % 0x1_0000_0000_0000_0000) as u64
}

/// Reassembles a 128-bit value from its two halves.
pub open spec fn join64(hi: u64, lo: u64) -> u128 {
    (hi as int * 0x1_0000_0000_0000_0000 + lo as int) as u128
}

/// Splitting a 128-bit value and reassembling the halves is the identity.
pub proof fn lemma_join_split(x: u128)
    ensures
        join64(hi64(x), lo64(x)) == x,
{
    lemma_fundamental_div_mod(x as int, 0x1_0000_0000_0000_0000);
}

/// The word that stands for an address family.
pub open spec fn afi_word(a: Afi) -> u64 {
    match a {
        Afi::Ipv4 => 1,
        Afi::Ipv6 => 2,
    }
}

/// The address family a word stands for, if any.
pub open spec fn word_afi(w: u64) -> Option<Afi> {
    if w == 1 {
        Some(Afi::Ipv4)
    } else if w == 2 {
        Some(Afi::Ipv6)
    } else {
        None
    }
}

/// The word that stands for a sub-address-family.
pub open spec fn safi_word(s: Safi) -> u64 {
    match s {
        Safi::Unicast => 1,
        Safi::Multicast => 2,
        Safi::UnicastMulticast => 3,
    }
}

/// The sub-address-family a word stands for, if any.
pub open spec fn word_safi(w: u64) -> Option<Safi> {
    if w == 1 {
        Some(Safi::Unicast)
    } else if w == 2 {
        Some(Safi::Multicast)
    } else if w == 3 {
        Some(Safi::UnicastMulticast)
    } else {
        None
    }
}

/// The encoding of one network value: a family tag, the address words, and
/// the prefix length.
pub open spec fn enc_network(n: IpNetwork) -> Seq<u64> {
    match n {
        IpNetwork::V4 { addr, len } => seq![1u64, addr as u64, len as u64],
        IpNetwork::V6 { addr, len } => seq![2u64, hi64(addr), lo64(addr), len as u64],
    }
}

/// Decodes one network value from the front of a word sequence, yielding it
/// and the remaining words; absent on a malformed front. Every network it
/// yields is well formed: the decoder checks the prefix-length bound.
pub open spec fn dec_network(s: Seq<u64>) -> Option<(IpNetwork, Seq<u64>)> {
    if s.len() >= 3 && s[0] == 1 && s[1] <= u32::MAX && s[2] <= 32 {
        Some((IpNetwork::V4 { addr: s[1] as u32, len: s[2] as u8 }, s.skip(3)))
    } else if s.len() >= 4 && s[0] == 2 && s[3] <= 128 {
        Some((IpNetwork::V6 { addr: join64(s[1], s[2]), len: s[3] as u8 }, s.skip(4)))
    } else {
        None
    }
}

/// Whatever the input, a decoded network value is well formed.
pub proof fn lemma_dec_network_wf(s: Seq<u64>)
    ensures
        dec_network(s) matches Some((n, _)) ==> n.wf(),
{
}

/// Law: decoding inverts encoding of a well-formed network, whatever follows.
pub proof fn lemma_dec_enc_network(n: IpNetwork, rest: Seq<u64>)
    requires
        n.wf(),
    ensures
        dec_network(enc_network(n) + rest) == Some((n, rest)),
{
    let s = enc_network(n) + rest;
    match n {
        IpNetwork::V4 { addr, len } => {
            assert(s.skip(3) =~= rest);
        },
        IpNetwork::V6 { addr, len } => {
            assert(s.skip(4) =~= rest);
            lemma_join_split(addr);
        },
    }
}

/// The encoding of one next hop: a variant tag and the address words.
pub open spec fn enc_next_hop(nh: NextHopAddress) -> Seq<u64> {
    match nh {
        NextHopAddress::Ipv4(a) => seq![1u64, a as u64],
        NextHopAddress::Ipv6(a) => seq![2u64, hi64(a), lo64(a)],
        NextHopAddress::Ipv6LinkLocal(g, l) => seq![
            3u64,
            hi64(g),
            lo64(g),
            hi64(l),
            lo64(l),
        ],
    }
}

/// Decodes one next hop from the front of a word sequence.
pub open spec fn dec_next_hop(s: Seq<u64>) -> Option<(NextHopAddress, Seq<u64>)> {
    if s.len() >= 2 && s[0] == 1 && s[1] <= u32::MAX {
        Some((NextHopAddress::Ipv4(s[1] as u32), s.skip(2)))
    } else if s.len() >= 3 && s[0] == 2 {
        Some((NextHopAddress::Ipv6(join64(s[1], s[2])), s.skip(3)))
    } else if s.len() >= 5 && s[0] == 3 {
        Some((NextHopAddress::Ipv6LinkLocal(join64(s[1], s[2]), join64(s[3], s[4])), s.skip(5)))
    } else {
        None
    }
}

/// Law: decoding inverts encoding of a next hop, whatever follows.
pub proof fn lemma_dec_enc_next_hop(nh: NextHopAddress, rest: Seq<u64>)
    ensures
        dec_next_hop(enc_next_hop(nh) + rest) == Some((nh, rest)),
{
    let s = enc_next_hop(nh) + rest;
    match nh {
        NextHopAddress::Ipv4(a) => {
            assert(s.skip(2) =~= rest);
        },
        NextHopAddress::Ipv6(a) => {
            assert(s.skip(3) =~= rest);
            lemma_join_split(a);
        },
        NextHopAddress::Ipv6LinkLocal(g, l) => {
            assert(s.skip(5) =~= rest);
            lemma_join_split(g);
            lemma_join_split(l);
        },
    }
}

/// The encoding of an optional next hop: a presence word, then the next hop
/// itself when present — absence is structural, never a sentinel address.
pub open spec fn enc_opt_next_hop(o: Option<NextHopAddress>) -> Seq<u64> {
    match o {
        None => seq![0u64],
        Some(nh) => seq![1u64] + enc_next_hop(nh),
    }
}

/// Decodes an optional next hop from the front of a word sequence.
pub open spec fn dec_opt_next_hop(s: Seq<u64>) -> Option<(Option<NextHopAddress>, Seq<u64>)> {
    if s.len() >= 1 && s[0] == 0 {
        Some((None, s.skip(1)))
    } else if s.len() >= 1 && s[0] == 1 {
        match dec_next_hop(s.skip(1)) {
            Some((nh, rest)) => Some((Some(nh), rest)),
            None => None,
        }
    } else {
        None
    }
}

/// Law: decoding inverts encoding of an optional next hop, whatever follows.
pub proof fn lemma_dec_enc_opt_next_hop(o: Option<NextHopAddress>, rest: Seq<u64>)
    ensures
        dec_opt_next_hop(enc_opt_next_hop(o) + rest) == Some((o, rest)),
{
    let s = enc_opt_next_hop(o) + rest;
    match o {
        None => {
            assert(s.skip(1) =~= rest);
        },
        Some(nh) => {
            assert(s.skip(1) =~= enc_next_hop(nh) + rest);
            lemma_dec_enc_next_hop(nh, rest);
        },
    }
}

/// The encoding of a prefix sequence: each network value in order.
pub open spec fn enc_prefixes(ps: Seq<NetworkPrefix>) -> Seq<u64>
    decreases ps.len(),
{
    if ps.len() == 0 {
        Seq::empty()
    } else {
        enc_network(ps[0].spec_network()) + enc_prefixes(ps.skip(1))
    }
}

/// Encoding one more prefix appends its encoding at the end.
pub proof fn lemma_enc_prefixes_push(ps: Seq<NetworkPrefix>, p: NetworkPrefix)
    ensures
        enc_prefixes(ps.push(p)) == enc_prefixes(ps) + enc_network(p.spec_network()),
    decreases ps.len(),
{
    if ps.len() == 0 {
        assert(ps.push(p)[0] == p);
        assert(ps.push(p).skip(1) =~= Seq::<NetworkPrefix>::empty());
        assert(enc_prefixes(ps.push(p)) == enc_network(p.spec_network()) + enc_prefixes(
            Seq::<NetworkPrefix>::empty(),
        ));
        assert(enc_prefixes(ps.push(p)) =~= enc_prefixes(ps) + enc_network(p.spec_network()));
    } else {
        let head = enc_network(ps[0].spec_network());
        assert(ps.push(p)[0] == ps[0]);
        assert(ps.push(p).skip(1) =~= ps.skip(1).push(p));
        lemma_enc_prefixes_push(ps.skip(1), p);
        assert(enc_prefixes(ps.push(p)) == head + (enc_prefixes(ps.skip(1)) + enc_network(
            p.spec_network(),
        )));
        assert(head + (enc_prefixes(ps.skip(1)) + enc_network(p.spec_network())) =~= (head
            + enc_prefixes(ps.skip(1))) + enc_network(p.spec_network()));
    }
}

/// Decodes `n` prefixes from the front of a word sequence.
pub open spec fn dec_prefixes(s: Seq<u64>, n: nat) -> Option<(Seq<NetworkPrefix>, Seq<u64>)>
    decreases n,
{
    if n == 0 {
        Some((Seq::empty(), s))
    } else {
        match dec_network(s) {
            Some((net, rest)) => match dec_prefixes(rest, (n - 1) as nat) {
                Some((tail, rest2)) => Some((seq![NetworkPrefix::spec_new(net)] + tail, rest2)),
                None => None,
            },
            None => None,
        }
    }
}

/// Law: decoding inverts encoding of a well-formed prefix sequence, whatever
/// follows.
pub proof fn lemma_dec_enc_prefixes(ps: Seq<NetworkPrefix>, rest: Seq<u64>)
    requires
        forall|i: int| 0 <= i < ps.len() ==> (#[trigger] ps[i]).wf(),
    ensures
        dec_prefixes(enc_prefixes(ps) + rest, ps.len()) == Some((ps, rest)),
    decreases ps.len(),
{
    broadcast use lemma_prefix_wf, lemma_network_of_prefix;

    if ps.len() == 0 {
        assert(enc_prefixes(ps) + rest =~= rest);
        assert(ps =~= Seq::<NetworkPrefix>::empty());
    } else {
        let head = ps[0];
        let tail = ps.skip(1);
        let s = enc_prefixes(ps) + rest;
        assert(s =~= enc_network(head.spec_network()) + (enc_prefixes(tail) + rest));
        lemma_dec_enc_network(head.spec_network(), enc_prefixes(tail) + rest);
        lemma_dec_enc_prefixes(tail, rest);
        assert(seq![NetworkPrefix::spec_new(head.spec_network())] + tail =~= ps);
    }
}

/// The encoding of a legacy record: family and sub-family words, the optional
/// next hop, the prefix count, then each prefix in order.
pub open spec fn enc_nlri(v: NlriView) -> Seq<u64> {
    seq![afi_word(v.afi), safi_word(v.safi)] + enc_opt_next_hop(v.next_hop) + seq![
        v.prefixes.len() as u64,
    ] + enc_prefixes(v.prefixes)
}

/// Decodes a whole legacy record; absent unless the words are exactly one
/// well-formed encoding.
pub open spec fn dec_nlri(s: Seq<u64>) -> Option<NlriView> {
    if s.len() < 2 {
        None
    } else {
        match (word_afi(s[0]), word_safi(s[1])) {
            (Some(afi), Some(safi)) => match dec_opt_next_hop(s.skip(2)) {
                Some((next_hop, rest)) => if rest.len() < 1 {
                    None
                } else {
                    match dec_prefixes(rest.skip(1), rest[0] as nat) {
                        Some((prefixes, rest2)) => if rest2.len() == 0 {
                            Some(NlriView { afi, safi, next_hop, prefixes })
                        } else {
                            None
                        },
                        None => None,
                    }
                },
                None => None,
            },
            _ => None,
        }
    }
}

/// Law: a legacy record survives the encoding round trip unchanged, field for
/// field. The count bound is the machine limit on a prefix collection.
pub proof fn lemma_nlri_round_trip(v: NlriView)
    requires
        forall|i: int| 0 <= i < v.prefixes.len() ==> (#[trigger] v.prefixes[i]).wf(),
        v.prefixes.len() <= u64::MAX,
    ensures
        dec_nlri(enc_nlri(v)) == Some(v),
{
    let s = enc_nlri(v);
    let o = enc_opt_next_hop(v.next_hop);
    let cnt = seq![v.prefixes.len() as u64];
    let body = enc_prefixes(v.prefixes);
    assert(s[0] == afi_word(v.afi));
    assert(s[1] == safi_word(v.safi));
    assert(word_afi(afi_word(v.afi)) == Some(v.afi));
    assert(word_safi(safi_word(v.safi)) == Some(v.safi));
    assert(s.skip(2) =~= o + (cnt + body));
    lemma_dec_enc_opt_next_hop(v.next_hop, cnt + body);
    let rest = cnt + body;
    assert(rest[0] == v.prefixes.len() as u64);
    assert(rest.skip(1) =~= body + Seq::<u64>::empty());
    lemma_dec_enc_prefixes(v.prefixes, Seq::<u64>::empty());
    assert((v.prefixes.len() as u64) as nat == v.prefixes.len());
    assert((NlriView {
        afi: v.afi,
        safi: v.safi,
        next_hop: v.next_hop,
        prefixes: v.prefixes,
    }) =~= v);
}

/// The encoding of a multiprotocol advertisement: family and sub-family
/// words, the mandatory next hop, the prefix count, then each prefix.
pub open spec fn enc_mp_reachable(v: MpReachableNlriView) -> Seq<u64> {
    seq![afi_word(v.afi), safi_word(v.safi)] + enc_next_hop(v.next_hop) + seq![
        v.prefixes.len() as u64,
    ] + enc_prefixes(v.prefixes)
}

/// Decodes a whole multiprotocol advertisement.
pub open spec fn dec_mp_reachable(s: Seq<u64>) -> Option<MpReachableNlriView> {
    if s.len() < 2 {
        None
    } else {
        match (word_afi(s[0]), word_safi(s[1])) {
            (Some(afi), Some(safi)) => match dec_next_hop(s.skip(2)) {
                Some((next_hop, rest)) => if rest.len() < 1 {
                    None
                } else {
                    match dec_prefixes(rest.skip(1), rest[0] as nat) {
                        Some((prefixes, rest2)) => if rest2.len() == 0 {
                            Some(MpReachableNlriView { afi, safi, next_hop, prefixes })
                        } else {
                            None
                        },
                        None => None,
                    }
                },
                None => None,
            },
            _ => None,
        }
    }
}

/// Law: a multiprotocol advertisement survives the encoding round trip
/// unchanged, field for field.
pub proof fn lemma_mp_reachable_round_trip(v: MpReachableNlriView)
    requires
        forall|i: int| 0 <= i < v.prefixes.len() ==> (#[trigger] v.prefixes[i]).wf(),
        v.prefixes.len() <= u64::MAX,
    ensures
        dec_mp_reachable(enc_mp_reachable(v)) == Some(v),
{
    let s = enc_mp_reachable(v);
    let o = enc_next_hop(v.next_hop);
    let cnt = seq![v.prefixes.len() as u64];
    let body = enc_prefixes(v.prefixes);
    assert(s[0] == afi_word(v.afi));
    assert(s[1] == safi_word(v.safi));
    assert(word_afi(afi_word(v.afi)) == Some(v.afi));
    assert(word_safi(safi_word(v.safi)) == Some(v.safi));
    assert(s.skip(2) =~= o + (cnt + body));
    lemma_dec_enc_next_hop(v.next_hop, cnt + body);
    let rest = cnt + body;
    assert(rest[0] == v.prefixes.len() as u64);
    assert(rest.skip(1) =~= body + Seq::<u64>::empty());
    lemma_dec_enc_prefixes(v.prefixes, Seq::<u64>::empty());
    assert((v.prefixes.len() as u64) as nat == v.prefixes.len());
    assert((MpReachableNlriView {
        afi: v.afi,
        safi: v.safi,
        next_hop: v.next_hop,
        prefixes: v.prefixes,
    }) =~= v);
}

/// The encoding of a multiprotocol withdrawal: family and sub-family words,
/// the prefix count, then each prefix. There is no next-hop section at all.
pub open spec fn enc_mp_unreachable(v: MpUnreachableNlriView) -> Seq<u64> {
    seq![afi_word(v.afi), safi_word(v.safi), v.prefixes.len() as u64] + enc_prefixes(v.prefixes)
}

/// Decodes a whole multiprotocol withdrawal.
pub open spec fn dec_mp_unreachable(s: Seq<u64>) -> Option<MpUnreachableNlriView> {
    if s.len() < 3 {
        None
    } else {
        match (word_afi(s[0]), word_safi(s[1])) {
            (Some(afi), Some(safi)) => match dec_prefixes(s.skip(3), s[2] as nat) {
                Some((prefixes, rest)) => if rest.len() == 0 {
                    Some(MpUnreachableNlriView { afi, safi, prefixes })
                } else {
                    None
                },
                None => None,
            },
            _ => None,
        }
    }
}

/// Law: a multiprotocol withdrawal survives the encoding round trip
/// unchanged, field for field.
pub proof fn lemma_mp_unreachable_round_trip(v: MpUnreachableNlriView)
    requires
        forall|i: int| 0 <= i < v.prefixes.len() ==> (#[trigger] v.prefixes[i]).wf(),
        v.prefixes.len() <= u64::MAX,
    ensures
        dec_mp_unreachable(enc_mp_unreachable(v)) == Some(v),
{
    let s = enc_mp_unreachable(v);
    let body = enc_prefixes(v.prefixes);
    assert(s[0] == afi_word(v.afi));
    assert(s[1] == safi_word(v.safi));
    assert(s[2] == v.prefixes.len() as u64);
    assert(word_afi(afi_word(v.afi)) == Some(v.afi));
    assert(word_safi(safi_word(v.safi)) == Some(v.safi));
    assert(s.skip(3) =~= body + Seq::<u64>::empty());
    lemma_dec_enc_prefixes(v.prefixes, Seq::<u64>::empty());
    assert((v.prefixes.len() as u64) as nat == v.prefixes.len());
    assert((MpUnreachableNlriView { afi: v.afi, safi: v.safi, prefixes: v.prefixes }) =~= v);
}

/// Executable view of [`afi_word`].
fn afi_to_word(a: Afi) -> (r: u64)
    ensures
        r == afi_word(a),
{
    match a {
        Afi::Ipv4 => 1,
        Afi::Ipv6 => 2,
    }
}

/// Executable view of [`word_afi`].
fn word_to_afi(w: u64) -> (r: Option<Afi>)
    ensures
        r == word_afi(w),
{
    if w == 1 {
        Some(Afi::Ipv4)
    } else if w == 2 {
        Some(Afi::Ipv6)
    } else {
        None
    }
}

/// Executable view of [`safi_word`].
fn safi_to_word(s: Safi) -> (r: u64)
    ensures
        r == safi_word(s),
{
    match s {
        Safi::Unicast => 1,
        Safi::Multicast => 2,
        Safi::UnicastMulticast => 3,
    }
}

/// Executable view of [`word_safi`].
fn word_to_safi(w: u64) -> (r: Option<Safi>)
    ensures
        r == word_safi(w),
{
    if w == 1 {
        Some(Safi::Unicast)
    } else if w == 2 {
        Some(Safi::Multicast)
    } else if w == 3 {
        Some(Safi::UnicastMulticast)
    } else {
        None
    }
}

/// Appends the encoding of one network value.
fn push_network(out: &mut Vec<u64>, n: IpNetwork)
    ensures
        final(out)@ == old(out)@ + enc_network(n),
{
    match n {
        IpNetwork::V4 { addr, len } => {
            out.push(1u64);
            out.push(addr as u64);
            out.push(len as u64);
            assert(out@ =~= old(out)@ + enc_network(n));
        },
        IpNetwork::V6 { addr, len } => {
            out.push(2u64);
            out.push((addr / 0x1_0000_0000_0000_0000) as u64);
            out.push((addr % 0x1_0000_0000_0000_0000) as u64);
            out.push(len as u64);
            assert(out@ =~= old(out)@ + enc_network(n));
        },
    }
}

/// Appends the encoding of one next hop.
fn push_next_hop(out: &mut Vec<u64>, nh: NextHopAddress)
    ensures
        final(out)@ == old(out)@ + enc_next_hop(nh),
{
    match nh {
        NextHopAddress::Ipv4(a) => {
            out.push(1u64);
            out.push(a as u64);
            assert(out@ =~= old(out)@ + enc_next_hop(nh));
        },
        NextHopAddress::Ipv6(a) => {
            out.push(2u64);
            out.push((a / 0x1_0000_0000_0000_0000) as u64);
            out.push((a % 0x1_0000_0000_0000_0000) as u64);
            assert(out@ =~= old(out)@ + enc_next_hop(nh));
        },
        NextHopAddress::Ipv6LinkLocal(g, l) => {
            out.push(3u64);
            out.push((g / 0x1_0000_0000_0000_0000) as u64);
            out.push((g % 0x1_0000_0000_0000_0000) as u64);
            out.push((l / 0x1_0000_0000_0000_0000) as u64);
            out.push((l % 0x1_0000_0000_0000_0000) as u64);
            assert(out@ =~= old(out)@ + enc_next_hop(nh));
        },
    }
}

/// Appends the count word and the encoding of each prefix, in order.
fn push_prefixes(out: &mut Vec<u64>, ps: &Vec<NetworkPrefix>)
    ensures
        final(out)@ == old(out)@ + seq![ps@.len() as u64] + enc_prefixes(ps@),
{
    out.push(ps.len() as u64);
    let mut i: usize = 0;
    while i < ps.len()
        invariant
            i <= ps@.len(),
            out@ == old(out)@ + seq![ps@.len() as u64] + enc_prefixes(ps@.take(i as int)),
        decreases ps@.len() - i,
    {
        push_network(out, ps[i].network());
        proof {
            lemma_enc_prefixes_push(ps@.take(i as int), ps@[i as int]);
            assert(ps@.take(i + 1 as int) =~= ps@.take(i as int).push(ps@[i as int]));
            assert(old(out)@ + seq![ps@.len() as u64] + (enc_prefixes(ps@.take(i as int))
                + enc_network(ps@[i as int].spec_network())) =~= old(out)@ + seq![
                ps@.len() as u64,
            ] + enc_prefixes(ps@.take(i + 1 as int)));
        }
        i += 1;
    }
    proof {
        assert(ps@.take(ps@.len() as int) =~= ps@);
        assert(out@ =~= old(out)@ + seq![ps@.len() as u64] + enc_prefixes(ps@));
    }
}

/// Encodes a legacy record as a word sequence: exactly [`enc_nlri`] of its
/// abstract state.
pub fn encode_nlri(x: &Nlri) -> (r: Vec<u64>)
    ensures
        r@ == enc_nlri(x@),
{
    let mut out: Vec<u64> = Vec::new();
    out.push(afi_to_word(x.afi));
    out.push(safi_to_word(x.safi));
    match &x.next_hop {
        None => {
            out.push(0u64);
            assert(out@ =~= seq![afi_word(x@.afi), safi_word(x@.safi)] + enc_opt_next_hop(
                x@.next_hop,
            ));
        },
        Some(nh) => {
            out.push(1u64);
            push_next_hop(&mut out, *nh);
            assert(out@ =~= seq![afi_word(x@.afi), safi_word(x@.safi)] + enc_opt_next_hop(
                x@.next_hop,
            ));
        },
    }
    push_prefixes(&mut out, &x.prefixes);
    proof {
        assert(out@ =~= enc_nlri(x@));
    }
    out
}

/// Encodes a multiprotocol advertisement as a word sequence: exactly
/// [`enc_mp_reachable`] of its abstract state.
pub fn encode_mp_reachable(x: &MpReachableNlri) -> (r: Vec<u64>)
    ensures
        r@ == enc_mp_reachable(x@),
{
    let mut out: Vec<u64> = Vec::new();
    out.push(afi_to_word(x.afi()));
    out.push(safi_to_word(x.safi()));
    push_next_hop(&mut out, x.next_hop());
    assert(out@ =~= seq![afi_word(x@.afi), safi_word(x@.safi)] + enc_next_hop(x@.next_hop));
    push_prefixes(&mut out, x.prefixes());
    proof {
        assert(out@ =~= enc_mp_reachable(x@));
    }
    out
}

/// Encodes a multiprotocol withdrawal as a word sequence: exactly
/// [`enc_mp_unreachable`] of its abstract state.
pub fn encode_mp_unreachable(x: &MpUnreachableNlri) -> (r: Vec<u64>)
    ensures
        r@ == enc_mp_unreachable(x@),
{
    let mut out: Vec<u64> = Vec::new();
    out.push(afi_to_word(x.afi()));
    out.push(safi_to_word(x.safi()));
    push_prefixes(&mut out, x.prefixes());
    proof {
        assert(out@ =~= enc_mp_unreachable(x@));
    }
    out
}

/// Reads one network value at position `i`, yielding it and the next
/// position; implements [`dec_network`] exactly.
fn read_network(s: &Vec<u64>, i: usize) -> (r: Option<(IpNetwork, usize)>)
    requires
        i <= s@.len(),
    ensures
        match r {
            Some((n, j)) => i < j <= s@.len() && dec_network(s@.skip(i as int)) == Some((
                n,
                s@.skip(j as int),
            )),
            None => dec_network(s@.skip(i as int)) is None,
        },
{
    let remaining = s.len() - i;
    if remaining >= 3 && s[i] == 1 {
        let addr_w = s[i + 1];
        let len_w = s[i + 2];
        if addr_w <= 0xFFFF_FFFF && len_w <= 32 {
            let j = i + 3;
            proof {
                assert(s@.skip(i as int).skip(3) =~= s@.skip(j as int));
            }
            Some((IpNetwork::V4 { addr: addr_w as u32, len: len_w as u8 }, j))
        } else {
            None
        }
    } else if remaining >= 4 && s[i] == 2 {
        let hi = s[i + 1];
        let lo = s[i + 2];
        let len_w = s[i + 3];
        if len_w <= 128 {
            let j = i + 4;
            let addr = (hi as u128) * 0x1_0000_0000_0000_0000 + (lo as u128);
            proof {
                assert(s@.skip(i as int).skip(4) =~= s@.skip(j as int));
                assert(addr == join64(hi, lo));
            }
            Some((IpNetwork::V6 { addr, len: len_w as u8 }, j))
        } else {
            None
        }
    } else {
        None
    }
}

/// Reads one next hop at position `i`; implements [`dec_next_hop`] exactly.
fn read_next_hop(s: &Vec<u64>, i: usize) -> (r: Option<(NextHopAddress, usize)>)
    requires
        i <= s@.len(),
    ensures
        match r {
            Some((nh, j)) => i < j <= s@.len() && dec_next_hop(s@.skip(i as int)) == Some((
                nh,
                s@.skip(j as int),
            )),
            None => dec_next_hop(s@.skip(i as int)) is None,
        },
{
    let remaining = s.len() - i;
    if remaining >= 2 && s[i] == 1 {
        let addr_w = s[i + 1];
        if addr_w <= 0xFFFF_FFFF {
            let j = i + 2;
            proof {
                assert(s@.skip(i as int).skip(2) =~= s@.skip(j as int));
            }
            Some((NextHopAddress::Ipv4(addr_w as u32), j))
        } else {
            None
        }
    } else if remaining >= 3 && s[i] == 2 {
        let hi = s[i + 1];
        let lo = s[i + 2];
        let j = i + 3;
        let addr = (hi as u128) * 0x1_0000_0000_0000_0000 + (lo as u128);
        proof {
            assert(s@.skip(i as int).skip(3) =~= s@.skip(j as int));
            assert(addr == join64(hi, lo));
        }
        Some((NextHopAddress::Ipv6(addr), j))
    } else if remaining >= 5 && s[i] == 3 {
        let g = (s[i + 1] as u128) * 0x1_0000_0000_0000_0000 + (s[i + 2] as u128);
        let l = (s[i + 3] as u128) * 0x1_0000_0000_0000_0000 + (s[i + 4] as u128);
        let j = i + 5;
        proof {
            assert(s@.skip(i as int).skip(5) =~= s@.skip(j as int));
            assert(g == join64(s@[i + 1], s@[i + 2]));
            assert(l == join64(s@[i + 3], s@[i + 4]));
        }
        Some((NextHopAddress::Ipv6LinkLocal(g, l), j))
    } else {
        None
    }
}

/// Reads the optional next-hop section at position `i`; implements
/// [`dec_opt_next_hop`] exactly.
fn read_opt_next_hop(s: &Vec<u64>, i: usize) -> (r: Option<(Option<NextHopAddress>, usize)>)
    requires
        i <= s@.len(),
    ensures
        match r {
            Some((o, j)) => i < j <= s@.len() && dec_opt_next_hop(s@.skip(i as int)) == Some((
                o,
                s@.skip(j as int),
            )),
            None => dec_opt_next_hop(s@.skip(i as int)) is None,
        },
{
    if i < s.len() && s[i] == 0 {
        let j = i + 1;
        proof {
            assert(s@.skip(i as int).skip(1) =~= s@.skip(j as int));
        }
        Some((None, j))
    } else if i < s.len() && s[i] == 1 {
        proof {
            assert(s@.skip(i as int).skip(1) =~= s@.skip((i + 1) as int));
        }
        match read_next_hop(s, i + 1) {
            Some((nh, j)) => Some((Some(nh), j)),
            None => None,
        }
    } else {
        None
    }
}

/// Reads `count` prefixes starting at position `i`; implements
/// [`dec_prefixes`] exactly, validating each network as it goes.
fn read_prefixes(s: &Vec<u64>, i: usize, count: u64) -> (r: Option<(Vec<NetworkPrefix>, usize)>)
    requires
        i <= s@.len(),
    ensures
        match r {
            Some((ps, j)) => i <= j <= s@.len() && dec_prefixes(s@.skip(i as int), count as nat)
                == Some((ps@, s@.skip(j as int))),
            None => dec_prefixes(s@.skip(i as int), count as nat) is None,
        },
{
    let mut ps: Vec<NetworkPrefix> = Vec::new();
    let mut cur: usize = i;
    let mut k: u64 = 0;
    while k < count
        invariant
            i <= cur <= s@.len(),
            k <= count,
            match dec_prefixes(s@.skip(cur as int), (count - k) as nat) {
                Some((tail, rest)) => dec_prefixes(s@.skip(i as int), count as nat) == Some((
                    ps@ + tail,
                    rest,
                )),
                None => dec_prefixes(s@.skip(i as int), count as nat) is None,
            },
        decreases count - k,
    {
        match read_network(s, cur) {
            Some((net, j)) => {
                proof {
                    lemma_dec_network_wf(s@.skip(cur as int));
                }
                let p = match NetworkPrefix::new(net) {
                    Some(p) => p,
                    None => vstd::pervasive::unreached(),
                };
                proof {
                    let m = (count - k) as nat;
                    assert(dec_prefixes(s@.skip(cur as int), m) == (match dec_prefixes(
                        s@.skip(j as int),
                        (m - 1) as nat,
                    ) {
                        Some((tail, rest)) => Some((seq![NetworkPrefix::spec_new(net)] + tail, rest)),
                        None => None,
                    }));
                    if let Some((tail2, rest2)) = dec_prefixes(s@.skip(j as int), (m - 1) as nat) {
                        assert(ps@ + (seq![p] + tail2) =~= ps@.push(p) + tail2);
                    }
                }
                ps.push(p);
                cur = j;
                k = k + 1;
            },
            None => {
                return None;
            },
        }
    }
    proof {
        assert(ps@ + Seq::<NetworkPrefix>::empty() =~= ps@);
    }
    Some((ps, cur))
}

/// Decodes a legacy record from a word sequence: succeeds exactly where
/// [`dec_nlri`] does, and yields a record with that abstract state.
pub fn decode_nlri(s: &Vec<u64>) -> (r: Option<Nlri>)
    ensures
        match r {
            Some(x) => dec_nlri(s@) == Some(x@),
            None => dec_nlri(s@) is None,
        },
{
    if s.len() < 2 {
        return None;
    }
    let afi = match word_to_afi(s[0]) {
        Some(a) => a,
        None => {
            return None;
        },
    };
    let safi = match word_to_safi(s[1]) {
        Some(sa) => sa,
        None => {
            return None;
        },
    };
    match read_opt_next_hop(s, 2) {
        Some((next_hop, j)) => {
            if s.len() - j < 1 {
                proof {
                    assert(s@.skip(j as int).len() == 0);
                }
                return None;
            }
            let count = s[j];
            proof {
                assert(s@.skip(j as int)[0] == s@[j as int]);
                assert(s@.skip(j as int).skip(1) =~= s@.skip((j + 1) as int));
            }
            match read_prefixes(s, j + 1, count) {
                Some((prefixes, end)) => {
                    if end == s.len() {
                        proof {
                            assert(s@.skip(end as int).len() == 0);
                            assert(s@.skip(end as int) =~= Seq::<u64>::empty());
                        }
                        let ghost v = NlriView { afi, safi, next_hop, prefixes: prefixes@ };
                        let x = Nlri { afi, safi, next_hop, prefixes };
                        proof {
                            assert(x@ =~= v);
                        }
                        Some(x)
                    } else {
                        proof {
                            assert(s@.skip(end as int).len() > 0);
                        }
                        None
                    }
                },
                None => None,
            }
        },
        None => None,
    }
}

/// Decodes a multiprotocol advertisement from a word sequence: succeeds
/// exactly where [`dec_mp_reachable`] does, with that abstract state.
pub fn decode_mp_reachable(s: &Vec<u64>) -> (r: Option<MpReachableNlri>)
    ensures
        match r {
            Some(x) => dec_mp_reachable(s@) == Some(x@),
            None => dec_mp_reachable(s@) is None,
        },
{
    if s.len() < 2 {
        return None;
    }
    let afi = match word_to_afi(s[0]) {
        Some(a) => a,
        None => {
            return None;
        },
    };
    let safi = match word_to_safi(s[1]) {
        Some(sa) => sa,
        None => {
            return None;
        },
    };
    match read_next_hop(s, 2) {
        Some((next_hop, j)) => {
            if s.len() - j < 1 {
                proof {
                    assert(s@.skip(j as int).len() == 0);
                }
                return None;
            }
            let count = s[j];
            proof {
                assert(s@.skip(j as int)[0] == s@[j as int]);
                assert(s@.skip(j as int).skip(1) =~= s@.skip((j + 1) as int));
            }
            match read_prefixes(s, j + 1, count) {
                Some((prefixes, end)) => {
                    if end == s.len() {
                        proof {
                            assert(s@.skip(end as int) =~= Seq::<u64>::empty());
                        }
                        let x = MpReachableNlri::new(afi, safi, next_hop, prefixes);
                        proof {
                            assert(x@ =~= (MpReachableNlriView {
                                afi,
                                safi,
                                next_hop,
                                prefixes: x@.prefixes,
                            }));
                        }
                        Some(x)
                    } else {
                        proof {
                            assert(s@.skip(end as int).len() > 0);
                        }
                        None
                    }
                },
                None => None,
            }
        },
        None => None,
    }
}

/// Decodes a multiprotocol withdrawal from a word sequence: succeeds exactly
/// where [`dec_mp_unreachable`] does, with that abstract state.
pub fn decode_mp_unreachable(s: &Vec<u64>) -> (r: Option<MpUnreachableNlri>)
    ensures
        match r {
            Some(x) => dec_mp_unreachable(s@) == Some(x@),
            None => dec_mp_unreachable(s@) is None,
        },
{
    if s.len() < 3 {
        return None;
    }
    let afi = match word_to_afi(s[0]) {
        Some(a) => a,
        None => {
            return None;
        },
    };
    let safi = match word_to_safi(s[1]) {
        Some(sa) => sa,
        None => {
            return None;
        },
    };
    let count = s[2];
    match read_prefixes(s, 3, count) {
        Some((prefixes, end)) => {
            if end == s.len() {
                proof {
                    assert(s@.skip(end as int) =~= Seq::<u64>::empty());
                }
                let x = MpUnreachableNlri::new(afi, safi, prefixes);
                proof {
                    assert(x@ =~= (MpUnreachableNlriView { afi, safi, prefixes: x@.prefixes }));
                }
                Some(x)
            } else {
                proof {
                    assert(s@.skip(end as int).len() > 0);
                }
                None
            }
        },
        None => None,
    }
}

} // verus!
