//! Finding hosts by address resolution: which addresses are asked, the
//! requests, the replies, and the table that the system keeps.

use vstd::prelude::*;
use vstd::string::*;

use pnet::packet::arp::MutableArpPacket;
use pnet::packet::ethernet::MutableEthernetPacket;

use crate::bytes;
use crate::bytes::push_zeros;
use crate::capture::arp_fields;
use crate::net;
use crate::net::{IpAddr, is_local_ip, mac_string};
use crate::packet;
use crate::packet::ethernet_fields;
use crate::text;
use crate::text::{dec_text, join_texts, push_hex2, same, starts_with};

verus! {

// ---------------------------------------------------------------------------
// Subnets
// ---------------------------------------------------------------------------

/// The first and the last address of the network of an address with a mask.
pub open spec fn subnet(ip: u32, mask: u32) -> (u32, u32) {
    (ip & mask, (ip & mask) | !mask)
}

/// The first and the last address of the network of an address with a mask.
pub fn subnet_of(ip: u32, mask: u32) -> (r: (u32, u32))
    ensures
        r == subnet(ip, mask),
{
    (ip & mask, (ip & mask) | !mask)
}

/// The networks that are asked: those of all IPv4 addresses of an interface.
pub fn subnets_of(addresses: &Vec<(u32, u32)>) -> (r: Vec<(u32, u32)>)
    ensures
        r@ == addresses@.map_values(|a: (u32, u32)| subnet(a.0, a.1)),
{
    let mut r: Vec<(u32, u32)> = Vec::new();
    let n: usize = addresses.len();
    for i in 0..n
        invariant
            n == addresses@.len(),
            r@.len() == i,
            forall|j: int|
                0 <= j < i ==> #[trigger] r@[j] == subnet(addresses@[j].0, addresses@[j].1),
    {
        r.push(subnet_of(addresses[i].0, addresses[i].1));
    }
    assert(r@ =~= addresses@.map_values(|a: (u32, u32)| subnet(a.0, a.1)));
    r
}

/// The addresses that are asked in a network: all between its first and its
/// last, or none where it is too large.
pub open spec fn sweep(network: u32, broadcast: u32) -> Seq<u32> {
    if broadcast - network > 65536 || broadcast <= network {
        Seq::empty()
    } else {
        Seq::new((broadcast - network - 1) as nat, |i: int| (network + 1 + i) as u32)
    }
}

/// The addresses that are asked in a network.
pub fn sweep_targets(network: u32, broadcast: u32) -> (r: Vec<u32>)
    requires
        network < u32::MAX,
    ensures
        r@ == sweep(network, broadcast),
{
    let mut r: Vec<u32> = Vec::new();
    if broadcast <= network || broadcast - network > 65536 {
        return r;
    }
    let mut ip: u32 = network + 1;
    while ip < broadcast
        invariant
            network < ip <= broadcast,
            r@.len() == ip - network - 1,
            forall|j: int| 0 <= j < r@.len() ==> #[trigger] r@[j] == network + 1 + j,
        decreases broadcast - ip,
    {
        r.push(ip);
        ip = ip + 1;
    }
    assert(r@ =~= sweep(network, broadcast));
    r
}

/// Every address that is asked lies in the network, and is neither its first
/// nor its last.
pub proof fn law_targets_inside(ip: u32, mask: u32, i: int)
    requires
        0 <= i < sweep(subnet(ip, mask).0, subnet(ip, mask).1).len(),
    ensures
        subnet(ip, mask).0 < sweep(subnet(ip, mask).0, subnet(ip, mask).1)[i] < subnet(ip, mask).1,
{
}

/// The interface that a scan uses, as far as it is chosen by.
pub struct InterfaceInfo {
    pub name: String,
    pub description: String,
    pub loopback: bool,
    pub has_v4: bool,
}

/// An interface has a name, or a description that is the name.
pub open spec fn called_so(i: InterfaceInfo, name: Seq<char>) -> bool {
    i.name@ == name || i.description@ == name
}

/// The first interface with a name, from entry `from` on.
pub open spec fn named_interface(
    list: Seq<InterfaceInfo>,
    name: Seq<char>,
    from: int,
) -> Option<int>
    decreases list.len() - from,
{
    if from < 0 || from >= list.len() {
        None
    } else if called_so(list[from], name) {
        Some(from)
    } else {
        named_interface(list, name, from + 1)
    }
}

/// The first interface that leads to a network, from entry `from` on.
pub open spec fn usable_interface(list: Seq<InterfaceInfo>, from: int) -> Option<int>
    decreases list.len() - from,
{
    if from < 0 || from >= list.len() {
        None
    } else if !list[from].loopback && list[from].has_v4 {
        Some(from)
    } else {
        usable_interface(list, from + 1)
    }
}

/// The interface that a scan uses: the one with a name, or else the first that
/// leads to a network.
pub open spec fn scan_interface(list: Seq<InterfaceInfo>, name: Seq<char>) -> Option<int> {
    match named_interface(list, name, 0) {
        Some(i) => Some(i),
        None => usable_interface(list, 0),
    }
}

/// The first interface with a name.
pub fn find_interface(list: &Vec<InterfaceInfo>, name: &str) -> (r: Option<usize>)
    ensures
        match r {
            Some(i) => named_interface(list@, name@, 0) == Some(i as int) && i < list@.len(),
            None => named_interface(list@, name@, 0) is None,
        },
{
    let mut i: usize = 0;
    while i < list.len()
        invariant
            i <= list@.len(),
            named_interface(list@, name@, 0) == named_interface(list@, name@, i as int),
        decreases list@.len() - i,
    {
        if same(list[i].name.as_str(), name) || same(list[i].description.as_str(), name) {
            return Some(i);
        }
        i = i + 1;
    }
    None
}

/// The interface that a scan uses.
pub fn choose_interface(list: &Vec<InterfaceInfo>, name: &str) -> (r: Option<usize>)
    ensures
        match r {
            Some(i) => scan_interface(list@, name@) == Some(i as int) && i < list@.len(),
            None => scan_interface(list@, name@) is None,
        },
{
    match find_interface(list, name) {
        Some(i) => {
            return Some(i);
        },
        None => {},
    }
    let mut i: usize = 0;
    while i < list.len()
        invariant
            i <= list@.len(),
            named_interface(list@, name@, 0) is None,
            usable_interface(list@, 0) == usable_interface(list@, i as int),
        decreases list@.len() - i,
    {
        if !list[i].loopback && list[i].has_v4 {
            return Some(i);
        }
        i = i + 1;
    }
    None
}

/// What is shown while a network is asked.
pub fn subnet_status(index: usize, total: usize) -> (r: String)
    requires
        index < total,
    ensures
        r@ == "ARP Scanning Subnet "@ + text::dec((index + 1) as nat) + "/"@ + text::dec(total as nat)
            + "..."@,
{
    let mut r = "ARP Scanning Subnet ".to_owned();
    r.append(dec_text((index + 1) as u64).as_str());
    r.append("/");
    r.append(dec_text(total as u64).as_str());
    r.append("...");
    r
}

// ---------------------------------------------------------------------------
// Requests
// ---------------------------------------------------------------------------

/// The fields of an address resolution message.
pub struct ArpMessage {
    pub hardware: u16,
    pub protocol: u16,
    pub hardware_len: u8,
    pub protocol_len: u8,
    pub operation: u16,
    pub sender_mac: [u8; 6],
    pub sender_ip: u32,
    pub target_mac: [u8; 6],
    pub target_ip: u32,
}

/// The bytes of an address resolution message.
pub open spec fn arp_bytes(m: ArpMessage) -> Seq<u8> {
    bytes::bytes16(m.hardware) + bytes::bytes16(m.protocol) + seq![m.hardware_len, m.protocol_len] + bytes::bytes16(
        m.operation,
    ) + m.sender_mac@ + bytes::bytes32(m.sender_ip) + m.target_mac@ + bytes::bytes32(m.target_ip)
}

/// The bytes of a frame.
pub open spec fn frame_bytes(
    destination: Seq<u8>,
    source: Seq<u8>,
    ethertype: u16,
    payload: Seq<u8>,
) -> Seq<u8> {
    destination + source + bytes::bytes16(ethertype) + payload
}

/// `MutableArpPacket::new` of `pnet` and the setters of its nine fields: a
/// buffer of twenty-eight bytes then holds the fields one after another, each
/// with its most significant byte first.
#[verifier::external_body]
fn set_arp_fields(buffer: Vec<u8>, m: &ArpMessage) -> (r: Vec<u8>)
    requires
        buffer@.len() == 28,
    ensures
        r@ == arp_bytes(*m),
{
    let mut buffer = buffer;
    let mut p = MutableArpPacket::new(&mut buffer).unwrap();
    p.set_hardware_type(pnet::packet::arp::ArpHardwareType(m.hardware));
    p.set_protocol_type(pnet::packet::ethernet::EtherType(m.protocol));
    p.set_hw_addr_len(m.hardware_len);
    p.set_proto_addr_len(m.protocol_len);
    p.set_operation(pnet::packet::arp::ArpOperation(m.operation));
    p.set_sender_hw_addr(m.sender_mac.into());
    p.set_sender_proto_addr(m.sender_ip.into());
    p.set_target_hw_addr(m.target_mac.into());
    p.set_target_proto_addr(m.target_ip.into());
    buffer
}

/// `MutableEthernetPacket::new` of `pnet`, `set_destination`, `set_source`,
/// `set_ethertype` and `set_payload`: a buffer of fourteen bytes more than the
/// payload then holds the two addresses, the type and the payload.
#[verifier::external_body]
fn set_frame_fields(
    buffer: Vec<u8>,
    destination: &[u8; 6],
    source: &[u8; 6],
    ethertype: u16,
    payload: &[u8],
) -> (r: Vec<u8>)
    requires
        buffer@.len() == payload@.len() + 14,
    ensures
        r@ == frame_bytes(destination@, source@, ethertype, payload@),
{
    let mut buffer = buffer;
    let mut p = MutableEthernetPacket::new(&mut buffer).unwrap();
    p.set_destination((*destination).into());
    p.set_source((*source).into());
    p.set_ethertype(pnet::packet::ethernet::EtherType(ethertype));
    p.set_payload(payload);
    buffer
}

/// The message that asks who has an address.
pub open spec fn who_has(mac: [u8; 6], ip: u32, target: u32) -> ArpMessage {
    ArpMessage {
        hardware: 1,
        protocol: 0x0800,
        hardware_len: 6,
        protocol_len: 4,
        operation: 1,
        sender_mac: mac,
        sender_ip: ip,
        target_mac: [0, 0, 0, 0, 0, 0],
        target_ip: target,
    }
}

/// The frame in which the host with a hardware address and an address asks
/// everyone who has an address.
pub open spec fn arp_request(mac: [u8; 6], ip: u32, target: u32) -> Seq<u8> {
    frame_bytes(
        seq![255u8, 255, 255, 255, 255, 255],
        mac@,
        0x0806,
        arp_bytes(who_has(mac, ip, target)),
    )
}

/// The frame that asks everyone who has an address.
pub fn build_arp_request(mac: [u8; 6], ip: u32, target: u32) -> (r: Vec<u8>)
    ensures
        r@ == arp_request(mac, ip, target),
{
    let message = ArpMessage {
        hardware: 1,
        protocol: 0x0800,
        hardware_len: 6,
        protocol_len: 4,
        operation: 1,
        sender_mac: mac,
        sender_ip: ip,
        target_mac: [0, 0, 0, 0, 0, 0],
        target_ip: target,
    };
    let mut buffer: Vec<u8> = Vec::new();
    push_zeros(&mut buffer, 28);
    let body = set_arp_fields(buffer, &message);
    assert(body@.len() == 28);
    let mut frame: Vec<u8> = Vec::new();
    push_zeros(&mut frame, 42);
    let everyone: [u8; 6] = [255, 255, 255, 255, 255, 255];
    assert(everyone@ =~= seq![255u8, 255, 255, 255, 255, 255]);
    assert(frame@.len() == 42);
    set_frame_fields(frame, &everyone, &mac, 0x0806, body.as_slice())
}

/// A request holds what it was made from, where whoever receives it looks for
/// it: its type, its operation, the sender and the target.
pub proof fn law_request_read(mac: [u8; 6], ip: u32, target: u32)
    ensures
        arp_request(mac, ip, target).len() == 42,
        bytes::be16(arp_request(mac, ip, target), 12) == 0x0806,
        bytes::be16(arp_request(mac, ip, target), 20) == 1,
        arp_request(mac, ip, target).subrange(22, 28) == mac@,
        bytes::be32(arp_request(mac, ip, target), 28) == ip,
        bytes::be32(arp_request(mac, ip, target), 38) == target,
{
    let r = arp_request(mac, ip, target);
    let m = who_has(mac, ip, target);
    assert(r.subrange(22, 28) =~= mac@);
    bytes::law_read_written(r.take(28), ip, 0, r.skip(32));
    assert(bytes::bytes32(ip) =~= r.subrange(28, 32));
    assert(r.take(28) + bytes::bytes32(ip) + r.skip(32) =~= r);
    bytes::law_read_written(r.take(38), target, 0, Seq::empty());
    assert(bytes::bytes32(target) =~= r.subrange(38, 42));
    assert(r.take(38) + bytes::bytes32(target) + Seq::<u8>::empty() =~= r);
}

// ---------------------------------------------------------------------------
// Replies
// ---------------------------------------------------------------------------

/// The sender of a reply: its address and its hardware address in text.
pub open spec fn reply_sender(frame: Seq<u8>) -> Option<(IpAddr, Seq<char>)> {
    let body = packet::behind(frame, 14);
    if frame.len() >= 14 && bytes::be16(frame, 12) == 0x0806 && body.len() >= 28 && bytes::be16(body, 6) == 2 {
        Some((IpAddr::V4(bytes::be32(body, 14)), net::mac_text(body.subrange(8, 14), ":"@)))
    } else {
        None
    }
}

/// The sender of a reply: its address and its hardware address in text.
pub fn read_arp_reply(frame: &[u8]) -> (r: Option<(IpAddr, String)>)
    ensures
        match r {
            Some((ip, mac)) => reply_sender(frame@) == Some((ip, mac@)),
            None => reply_sender(frame@) is None,
        },
{
    match ethernet_fields(frame) {
        None => None,
        Some(e) => {
            if e.ethertype != 0x0806 {
                return None;
            }
            match arp_fields(e.payload.as_slice()) {
                None => None,
                Some(a) => {
                    if a.operation == 2 {
                        Some((IpAddr::V4(a.sender_ip), mac_string(&a.sender_mac, ":")))
                    } else {
                        None
                    }
                },
            }
        },
    }
}

// ---------------------------------------------------------------------------
// The table of the system
// ---------------------------------------------------------------------------

/// An entry of the table: the interface, the state of the neighbour, its
/// address, and the bytes of its hardware address.
pub struct Neighbour {
    pub interface: u32,
    pub state: u32,
    pub ip: IpAddr,
    pub mac: Vec<u8>,
}

/// The state of a neighbour that was not heard of lately.
pub const STALE: u32 = 4;

/// Bytes as hexadecimal pairs with colons between them.
pub open spec fn pairs_text(m: Seq<u8>) -> Seq<char> {
    text::join(m.map_values(|b: u8| text::hex2(b)), ":"@)
}

/// Bytes as hexadecimal pairs with colons between them.
pub fn pairs_string(m: &Vec<u8>) -> (r: String)
    ensures
        r@ == pairs_text(m@),
{
    let mut p: Vec<String> = Vec::new();
    let n: usize = m.len();
    for i in 0..n
        invariant
            n == m@.len(),
            p@.len() == i,
            forall|j: int| 0 <= j < i ==> (#[trigger] p@[j])@ == text::hex2(m@[j]),
    {
        let mut s = String::new();
        push_hex2(&mut s, m[i]);
        assert(s@ =~= text::hex2(m@[i as int]));
        p.push(s);
    }
    assert(text::texts(p@) =~= m@.map_values(|b: u8| text::hex2(b)));
    join_texts(&p, ":")
}

/// A neighbour that was seen: reachable, permanent, stale, delayed or probed.
pub open spec fn seen_state(state: u32) -> bool {
    state == 2 || state == 7 || state == STALE || state == 3 || state == 5
}

/// The hardware address of one host, not of a group and not empty.
pub open spec fn single_mac(mac: Seq<char>) -> bool {
    mac != "00:00:00:00:00:00"@ && !text::starts(mac, "33:33:"@) && !text::starts(mac, "01:00:5E:"@) && mac
        != "FF:FF:FF:FF:FF:FF"@
}

/// An entry tells of a host of this network on the interface that is scanned.
pub open spec fn tells_of_host(n: Neighbour, interface: Option<u32>) -> bool {
    &&& interface matches Some(i) ==> n.interface == i
    &&& seen_state(n.state)
    &&& net::local_ip(n.ip)
    &&& n.mac@.len() > 0
    &&& single_mac(pairs_text(n.mac@))
}

/// The hardware address, in text, that an entry gives for a host of this
/// network on the interface that is scanned.
pub fn read_neighbour(n: &Neighbour, interface: Option<u32>) -> (r: Option<String>)
    ensures
        match r {
            Some(mac) => tells_of_host(*n, interface) && mac@ == pairs_text(n.mac@),
            None => !tells_of_host(*n, interface),
        },
{
    if let Some(i) = interface {
        if n.interface != i {
            return None;
        }
    }
    if !(n.state == 2 || n.state == 7 || n.state == STALE || n.state == 3 || n.state == 5) {
        return None;
    }
    if !is_local_ip(&n.ip) || n.mac.len() == 0 {
        return None;
    }
    let mac = pairs_string(&n.mac);
    let s = mac.as_str();
    if same(s, "00:00:00:00:00:00") || starts_with(s, "33:33:") || starts_with(s, "01:00:5E:")
        || same(s, "FF:FF:FF:FF:FF:FF") {
        return None;
    }
    Some(mac)
}

/// Every address between the network and the address of all hosts is asked,
/// once each and in rising order, unless there are more than can be.
pub proof fn law_every_address_asked(network: u32, broadcast: u32, target: u32)
    ensures
        network < broadcast <= network + 65536 ==> {
            &&& sweep(network, broadcast).contains(target) <==> network < target < broadcast
            &&& forall|i: int, j: int|
                0 <= i < j < sweep(network, broadcast).len() ==> #[trigger] sweep(
                    network,
                    broadcast,
                )[i] < #[trigger] sweep(network, broadcast)[j]
        },
        broadcast > network + 65536 || broadcast <= network ==> sweep(network, broadcast).len() == 0,
{
    let s = sweep(network, broadcast);
    if network < broadcast <= network + 65536 && network < target < broadcast {
        assert(s[target - network - 1] == target);
    }
}

/// The interface that is asked on is the one of the name, and without such a
/// one the first with an address that is not the loopback.
pub proof fn law_interface_chosen(list: Seq<InterfaceInfo>, name: Seq<char>)
    ensures
        match scan_interface(list, name) {
            Some(i) => {
                &&& 0 <= i < list.len()
                &&& forall|j: int|
                    0 <= j < i ==> (#[trigger] list[j]).name@ != name && list[j].description@ != name
                &&& list[i].name@ == name || list[i].description@ == name || !list[i].loopback
                    && list[i].has_v4 && forall|j: int|
                    0 <= j < list.len() ==> (#[trigger] list[j]).name@ != name
                        && list[j].description@ != name && (j < i ==> list[j].loopback
                        || !list[j].has_v4)
            },
            None => forall|j: int|
                0 <= j < list.len() ==> (#[trigger] list[j]).name@ != name && list[j].description@
                    != name && (list[j].loopback || !list[j].has_v4),
        },
{
    lemma_named(list, name, 0);
    lemma_usable(list, 0);
}

proof fn lemma_named(list: Seq<InterfaceInfo>, name: Seq<char>, from: int)
    requires
        0 <= from,
    ensures
        match named_interface(list, name, from) {
            Some(i) => from <= i < list.len() && called_so(list[i], name) && forall|j: int|
                from <= j < i ==> !called_so(#[trigger] list[j], name),
            None => forall|j: int| from <= j < list.len() ==> !called_so(#[trigger] list[j], name),
        },
    decreases list.len() - from,
{
    if from < list.len() && !called_so(list[from], name) {
        lemma_named(list, name, from + 1);
    }
}

proof fn lemma_usable(list: Seq<InterfaceInfo>, from: int)
    requires
        0 <= from,
    ensures
        match usable_interface(list, from) {
            Some(i) => from <= i < list.len() && !list[i].loopback && list[i].has_v4 && forall|j: int|
                from <= j < i ==> (#[trigger] list[j]).loopback || !list[j].has_v4,
            None => forall|j: int|
                from <= j < list.len() ==> (#[trigger] list[j]).loopback || !list[j].has_v4,
        },
    decreases list.len() - from,
{
    if from < list.len() && (list[from].loopback || !list[from].has_v4) {
        lemma_usable(list, from + 1);
    }
}

/// A reply tells the address and the hardware address of its sender, where
/// they stand in it.
pub proof fn law_reply_read(frame: Seq<u8>)
    requires
        frame.len() >= 42,
    ensures
        frame[12] == 8 && frame[13] == 6 && frame[20] == 0 && frame[21] == 2 ==> {
            let told = reply_sender(frame);
            &&& told is Some
            &&& (told->0).0 == IpAddr::V4(
                (frame[28] * 0x0100_0000 + frame[29] * 0x0001_0000 + frame[30] * 0x0100
                    + frame[31]) as u32,
            )
            &&& (told->0).1 == text::hex2(frame[22]) + ":"@ + text::hex2(frame[23]) + ":"@
                + text::hex2(frame[24]) + ":"@ + text::hex2(frame[25]) + ":"@ + text::hex2(frame[26])
                + ":"@ + text::hex2(frame[27])
        },
        frame[12] != 8 || frame[13] != 6 || frame[20] != 0 || frame[21] != 2 ==> reply_sender(frame) is None,
{
    let body = packet::behind(frame, 14);
    assert(body =~= frame.skip(14));
    assert(body[6] == frame[20] && body[7] == frame[21]);
    assert(body[14] == frame[28] && body[15] == frame[29] && body[16] == frame[30] && body[17]
        == frame[31]);
    let m = body.subrange(8, 14);
    assert(m[0] == frame[22] && m[1] == frame[23] && m[2] == frame[24] && m[3] == frame[25] && m[4]
        == frame[26] && m[5] == frame[27]);
}

/// A neighbour tells of a host of this network when it was heard of in one of
/// the states for that, on the interface that is asked about if one is, and
/// its hardware address is one of a single device.
pub proof fn law_neighbour_tells_of_host(n: Neighbour, interface: u32, address: u32)
    requires
        n.ip == IpAddr::V4(address),
        n.mac@.len() == 6,
    ensures
        ({
            let heard = n.state == 2 || n.state == 3 || n.state == 4 || n.state == 5 || n.state == 7;
            let local = 0x0A00_0000 <= address <= 0x0AFF_FFFF || 0xAC10_0000 <= address
                <= 0xAC1F_FFFF || 0xC0A8_0000 <= address <= 0xC0A8_FFFF || 0xA9FE_0000 <= address
                <= 0xA9FE_FFFF;
            let single = single_mac(pairs_text(n.mac@));
            &&& tells_of_host(n, None) <==> heard && local && single
            &&& tells_of_host(n, Some(interface)) <==> heard && local && single && n.interface
                == interface
        }),
{
    net::law_local_ranges(address, 0);
}

} // verus!
