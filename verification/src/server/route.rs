use crate::common::ipv4::{value_of_octets, Ipv4Address};
use vstd::prelude::*;
use vstd::string::*;

verus! {

/// The source and destination address fields of `packet`, as etherparse's
/// `SlicedPacket::from_ip` reads them when it slices the packet as IPv4, or
/// `None` where it fails or finds another protocol.
pub uninterp spec fn etherparse_ipv4_addresses(packet: Seq<u8>) -> Option<([u8; 4], [u8; 4])>;

/// Calls `etherparse::SlicedPacket::from_ip` and, for an IPv4 packet, takes
/// the header's `source()` and `destination()`. Claimed: the result is
/// `etherparse_ipv4_addresses` of the packet; when there is one, the packet
/// starts with version 4 in its high nibble, is at least 20 bytes long, and
/// the two addresses are bytes 12 to 15 and 16 to 19 (the crate checks the
/// version and the header length before it reads those fields).
#[verifier::external_body]
fn sliced_ipv4_addresses(packet: &[u8]) -> (addrs: Option<([u8; 4], [u8; 4])>)
    ensures
        addrs == etherparse_ipv4_addresses(packet@),
        addrs matches Some((src, dst)) ==> {
            &&& packet@.len() >= 20
            &&& packet@[0] / 16 == 4
            &&& src@ == packet@.subrange(12, 16)
            &&& dst@ == packet@.subrange(16, 20)
        },
{
    match etherparse::SlicedPacket::from_ip(packet) {
        Ok(sliced) => match sliced.net {
            Some(etherparse::NetSlice::Ipv4(v4)) => Some(
                (v4.header().source(), v4.header().destination()),
            ),
            _ => None,
        },
        Err(_) => None,
    }
}

/// The address written in four octets.
pub open spec fn address_of(octets: [u8; 4]) -> Ipv4Address {
    Ipv4Address { value: value_of_octets(octets@[0], octets@[1], octets@[2], octets@[3]) as u32 }
}

/// Source and destination of a packet that etherparse reads as IPv4.
pub open spec fn src_dst_spec(packet: Seq<u8>) -> Option<(Ipv4Address, Ipv4Address)> {
    match etherparse_ipv4_addresses(packet) {
        Some((src, dst)) => Some((address_of(src), address_of(dst))),
        None => None,
    }
}

/// Source and destination addresses read as octets, as addresses.
pub fn addresses_from_octets(octets: Option<([u8; 4], [u8; 4])>) -> (addrs: Option<
    (Ipv4Address, Ipv4Address),
>)
    ensures
        addrs == match octets {
            Some((src, dst)) => Some((address_of(src), address_of(dst))),
            None => None::<(Ipv4Address, Ipv4Address)>,
        },
{
    match octets {
        Some((src, dst)) => Some(
            (
                Ipv4Address::from_octets(src[0], src[1], src[2], src[3]),
                Ipv4Address::from_octets(dst[0], dst[1], dst[2], dst[3]),
            ),
        ),
        None => None,
    }
}

/// The source and destination of an IPv4 packet; `None` for anything else.
pub fn src_dst_ipv4(packet: &[u8]) -> (addrs: Option<(Ipv4Address, Ipv4Address)>)
    ensures
        addrs == src_dst_spec(packet@),
        addrs matches Some((src, dst)) ==> {
            &&& packet@.len() >= 20
            &&& packet@[0] / 16 == 4
            &&& src == address_of_bytes(packet@.subrange(12, 16))
            &&& dst == address_of_bytes(packet@.subrange(16, 20))
        },
{
    let octets = sliced_ipv4_addresses(packet);
    addresses_from_octets(octets)
}

/// The address written in the first four bytes of `b`.
pub open spec fn address_of_bytes(b: Seq<u8>) -> Ipv4Address {
    Ipv4Address { value: value_of_octets(b[0], b[1], b[2], b[3]) as u32 }
}

/// Whether addresses read from a packet name `session_ip` as their source.
pub fn source_is(session_ip: Ipv4Address, addrs: Option<(Ipv4Address, Ipv4Address)>) -> (ok: bool)
    ensures
        ok == (addrs matches Some((src, _)) && src == session_ip),
{
    match addrs {
        Some((src, _)) => src.value == session_ip.value,
        None => false,
    }
}

/// Whether `packet` is an IPv4 packet sent from `session_ip`: a client may
/// only send packets from the address it was given.
pub fn source_match(session_ip: Ipv4Address, packet: &[u8]) -> (ok: bool)
    ensures
        ok == (src_dst_spec(packet@) matches Some((src, _)) && src == session_ip),
{
    source_is(session_ip, src_dst_ipv4(packet))
}

/// The client a packet read from the device goes to: its destination, for an
/// IPv4 packet.
pub fn destination_of(packet: &[u8]) -> (dst: Option<Ipv4Address>)
    ensures
        dst == match src_dst_spec(packet@) {
            Some((_, d)) => Some(d),
            None => None::<Ipv4Address>,
        },
{
    match src_dst_ipv4(packet) {
        Some((_, d)) => Some(d),
        None => None,
    }
}

/// Text of the nftables ruleset, up to the subnet.
pub const NAT_RULES_HEAD: &'static str = "\ntable ip vpn_nat\nflush table ip vpn_nat\n\ntable ip vpn_nat {\n    chain postrouting {\n        type nat hook postrouting priority 100;\n        ip saddr ";

/// Text of the nftables ruleset between the subnet and the interface name.
pub const NAT_RULES_MIDDLE: &'static str = " oifname \"";

/// Text of the nftables ruleset after the interface name.
pub const NAT_RULES_TAIL: &'static str = "\" masquerade\n    }\n}\n";

/// The nftables ruleset that masquerades traffic from `vpn_net` leaving
/// through the interface `main_nic`.
pub fn nat_ruleset(vpn_net: &str, main_nic: &str) -> (rules: String)
    ensures
        rules@ == NAT_RULES_HEAD@ + vpn_net@ + NAT_RULES_MIDDLE@ + main_nic@ + NAT_RULES_TAIL@,
{
    let mut rules = NAT_RULES_HEAD.to_owned();
    rules.append(vpn_net);
    rules.append(NAT_RULES_MIDDLE);
    rules.append(main_nic);
    rules.append(NAT_RULES_TAIL);
    rules
}

} // verus!
