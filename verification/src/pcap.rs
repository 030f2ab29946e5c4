//! Network packet decoding (Ethernet, VLAN, IPv4/IPv6, TCP/UDP/ICMP) and TCP
//! flow analysis that flags resets, retransmissions, reordering, duplicate
//! acknowledgements and zero windows.

use crate::btsnoop::avrcp::{be16, be32, read_be16, read_be32};
use crate::btsnoop::rfcomm::slice_range;
use crate::text::{
    dec, hex_lower, joined, lemma_joined_step, push_dec, push_hex_lower, push_str, zero_pad,
};
use vstd::prelude::*;
use vstd::string::*;

verus! {

/// TCP-specific packet details.
#[derive(Clone, Copy, Debug, PartialEq, Eq)]
pub struct TcpDetails {
    pub seq: u32,
    pub ack: u32,
    pub flags: u8,
    pub window: u16,
    pub payload_len: u32,
}

/// A decoded network packet, ready for display.
#[derive(Clone, Debug)]
pub struct PacketInfo {
    /// Capture time in microseconds since the Unix epoch.
    pub timestamp_micros: i64,
    pub src_addr: String,
    pub src_port: Option<u16>,
    pub dst_addr: String,
    pub dst_port: Option<u16>,
    pub protocol: String,
    pub vlan_id: Option<u16>,
    pub length: u32,
    pub info: String,
    pub tcp_details: Option<TcpDetails>,
    pub is_abnormal: bool,
}

/// The abstract content of a [`PacketInfo`]: its texts as character
/// sequences.
pub struct PacketView {
    pub timestamp_micros: i64,
    pub src_addr: Seq<char>,
    pub src_port: Option<u16>,
    pub dst_addr: Seq<char>,
    pub dst_port: Option<u16>,
    pub protocol: Seq<char>,
    pub vlan_id: Option<u16>,
    pub length: u32,
    pub info: Seq<char>,
    pub tcp_details: Option<TcpDetails>,
    pub is_abnormal: bool,
}

impl View for PacketInfo {
    type V = PacketView;

    open spec fn view(&self) -> PacketView {
        PacketView {
            timestamp_micros: self.timestamp_micros,
            src_addr: self.src_addr@,
            src_port: self.src_port,
            dst_addr: self.dst_addr@,
            dst_port: self.dst_port,
            protocol: self.protocol@,
            vlan_id: self.vlan_id,
            length: self.length,
            info: self.info@,
            tcp_details: self.tcp_details,
            is_abnormal: self.is_abnormal,
        }
    }
}

/// The transport-layer reading of a packet: protocol name, ports, info
/// text and TCP details.
pub type TransportView = (Seq<char>, Option<u16>, Option<u16>, Seq<char>, Option<TcpDetails>);

/// The text of an exec transport reading.
pub open spec fn transport_view(
    t: (String, Option<u16>, Option<u16>, String, Option<TcpDetails>),
) -> TransportView {
    (t.0@, t.1, t.2, t.3@, t.4)
}

/// Bit `k` of `b` is set.
pub open spec fn bit(b: u8, k: nat) -> bool {
    (b as nat / vstd::arithmetic::power2::pow2(k)) % 2 == 1
}

/// The names of the TCP flags set in `flags`, in display order.
pub open spec fn tcp_flag_names(flags: u8) -> Seq<Seq<char>> {
    (if bit(flags, 1) { seq!["SYN"@] } else { seq![] }) + (if bit(flags, 4) {
        seq!["ACK"@]
    } else {
        seq![]
    }) + (if bit(flags, 0) { seq!["FIN"@] } else { seq![] }) + (if bit(flags, 2) {
        seq!["RST"@]
    } else {
        seq![]
    }) + (if bit(flags, 3) { seq!["PSH"@] } else { seq![] }) + (if bit(flags, 5) {
        seq!["URG"@]
    } else {
        seq![]
    })
}

/// `[SYN,ACK]`-style text for TCP flags (`[]` when none is set).
pub open spec fn tcp_flags_text(flags: u8) -> Seq<char> {
    "["@ + joined(tcp_flag_names(flags), ","@) + "]"@
}

/// `flags & mask != 0` for a single-bit mask is bit `k`.
proof fn lemma_bit(flags: u8, k: nat)
    requires
        k < 8,
    ensures
        (flags & (1u8 << k as u8) != 0) == bit(flags, k),
{
    vstd::arithmetic::power2::lemma2_to64();
    if k == 0 {
        assert((flags & (1u8 << 0u8) != 0) == (flags % 2 == 1)) by (bit_vector);
    } else if k == 1 {
        assert((flags & (1u8 << 1u8) != 0) == ((flags / 2) % 2 == 1)) by (bit_vector);
    } else if k == 2 {
        assert((flags & (1u8 << 2u8) != 0) == ((flags / 4) % 2 == 1)) by (bit_vector);
    } else if k == 3 {
        assert((flags & (1u8 << 3u8) != 0) == ((flags / 8) % 2 == 1)) by (bit_vector);
    } else if k == 4 {
        assert((flags & (1u8 << 4u8) != 0) == ((flags / 16) % 2 == 1)) by (bit_vector);
    } else if k == 5 {
        assert((flags & (1u8 << 5u8) != 0) == ((flags / 32) % 2 == 1)) by (bit_vector);
    } else if k == 6 {
        assert((flags & (1u8 << 6u8) != 0) == ((flags / 64) % 2 == 1)) by (bit_vector);
    } else {
        assert((flags & (1u8 << 7u8) != 0) == ((flags / 128) % 2 == 1)) by (bit_vector);
    }
}

/// Tests bit `k` of `flags`.
pub fn has_bit(flags: u8, k: u8) -> (r: bool)
    requires
        k < 8,
    ensures
        r == bit(flags, k as nat),
{
    proof {
        lemma_bit(flags, k as nat);
    }
    flags & (1u8 << k) != 0
}

/// Appends a name to a comma-joined list under construction.
fn push_listed(out: &mut String, count: &mut usize, name: &str, ghost_parts: Ghost<Seq<Seq<char>>>)
    requires
        *old(count) < 100,
        old(out)@ == "["@ + joined(ghost_parts@, ","@),
        ghost_parts@.len() == *old(count),
    ensures
        *final(count) == *old(count) + 1,
        final(out)@ == "["@ + joined(ghost_parts@.push(name@), ","@),
{
    let ghost parts = ghost_parts@;
    let ghost np = parts.push(name@);
    proof {
        lemma_joined_step(np, ","@, parts.len() as int);
        assert(np.take(parts.len() as int) =~= parts);
        assert(np.take(parts.len() as int + 1) =~= np);
    }
    if *count > 0 {
        push_str(out, ",");
    }
    push_str(out, name);
    *count = *count + 1;
    assert(out@ =~= "["@ + joined(np, ","@));
}

/// Formats TCP flags as `[SYN,ACK]`.
pub fn format_tcp_flags(flags: u8) -> (r: String)
    ensures
        r@ == tcp_flags_text(flags),
{
    let mut out = String::from_str("[");
    let mut count: usize = 0;
    let ghost mut parts: Seq<Seq<char>> = seq![];
    assert(out@ =~= "["@ + joined(parts, ","@));
    if has_bit(flags, 1) {
        push_listed(&mut out, &mut count, "SYN", Ghost(parts));
        proof { parts = parts.push("SYN"@); }
    }
    if has_bit(flags, 4) {
        push_listed(&mut out, &mut count, "ACK", Ghost(parts));
        proof { parts = parts.push("ACK"@); }
    }
    if has_bit(flags, 0) {
        push_listed(&mut out, &mut count, "FIN", Ghost(parts));
        proof { parts = parts.push("FIN"@); }
    }
    if has_bit(flags, 2) {
        push_listed(&mut out, &mut count, "RST", Ghost(parts));
        proof { parts = parts.push("RST"@); }
    }
    if has_bit(flags, 3) {
        push_listed(&mut out, &mut count, "PSH", Ghost(parts));
        proof { parts = parts.push("PSH"@); }
    }
    if has_bit(flags, 5) {
        push_listed(&mut out, &mut count, "URG", Ghost(parts));
        proof { parts = parts.push("URG"@); }
    }
    push_str(&mut out, "]");
    assert(parts =~= tcp_flag_names(flags));
    out
}

/// `aa:bb:cc:dd:ee:ff` for the first six bytes, or `??:??:??:??:??:??` when
/// fewer are given.
pub open spec fn mac_text(b: Seq<u8>) -> Seq<char> {
    if b.len() >= 6 {
        zero_pad(hex_lower(b[0] as nat), 2) + ":"@ + zero_pad(hex_lower(b[1] as nat), 2) + ":"@
            + zero_pad(hex_lower(b[2] as nat), 2) + ":"@ + zero_pad(hex_lower(b[3] as nat), 2)
            + ":"@ + zero_pad(hex_lower(b[4] as nat), 2) + ":"@ + zero_pad(
            hex_lower(b[5] as nat),
            2,
        )
    } else {
        "??:??:??:??:??:??"@
    }
}

/// Formats a MAC address.
pub fn format_mac(bytes: &[u8]) -> (r: String)
    ensures
        r@ == mac_text(bytes@),
{
    if bytes.len() >= 6 {
        let mut s = String::new();
        push_hex_lower(&mut s, bytes[0] as u64, 2);
        push_str(&mut s, ":");
        push_hex_lower(&mut s, bytes[1] as u64, 2);
        push_str(&mut s, ":");
        push_hex_lower(&mut s, bytes[2] as u64, 2);
        push_str(&mut s, ":");
        push_hex_lower(&mut s, bytes[3] as u64, 2);
        push_str(&mut s, ":");
        push_hex_lower(&mut s, bytes[4] as u64, 2);
        push_str(&mut s, ":");
        push_hex_lower(&mut s, bytes[5] as u64, 2);
        assert(s@ =~= mac_text(bytes@));
        s
    } else {
        String::from_str("??:??:??:??:??:??")
    }
}

/// The eight 16-bit groups of an IPv6 address, in hexadecimal.
pub open spec fn ipv6_groups(b: Seq<u8>) -> Seq<Seq<char>> {
    Seq::new(8, |i: int| hex_lower(be16(b, 2 * i)))
}

/// An IPv6 address as eight colon-separated hex groups (no `::`
/// compression), or `::` when fewer than 16 bytes are given.
pub open spec fn ipv6_text(b: Seq<u8>) -> Seq<char> {
    if b.len() >= 16 { joined(ipv6_groups(b), ":"@) } else { "::"@ }
}

/// Formats an IPv6 address.
pub fn format_ipv6(bytes: &[u8]) -> (r: String)
    ensures
        r@ == ipv6_text(bytes@),
{
    if bytes.len() < 16 {
        return String::from_str("::");
    }
    let ghost parts = ipv6_groups(bytes@);
    let mut s = String::new();
    let mut i: usize = 0;
    while i < 8
        invariant
            bytes@.len() >= 16,
            i <= 8,
            parts == ipv6_groups(bytes@),
            s@ == joined(parts.take(i as int), ":"@),
        decreases 8 - i,
    {
        proof {
            lemma_joined_step(parts, ":"@, i as int);
        }
        if i > 0 {
            push_str(&mut s, ":");
        }
        let val = read_be16(bytes, i * 2);
        push_hex_lower(&mut s, val as u64, 0);
        i += 1;
        assert(s@ =~= joined(parts.take(i as int), ":"@));
    }
    assert(parts.take(8) =~= parts);
    s
}

/// `a.b.c.d` for the four bytes from `i`.
pub open spec fn ipv4_text(d: Seq<u8>, i: int) -> Seq<char> {
    dec(d[i] as nat) + "."@ + dec(d[i + 1] as nat) + "."@ + dec(d[i + 2] as nat) + "."@ + dec(
        d[i + 3] as nat,
    )
}

fn format_ipv4(d: &[u8], i: usize) -> (r: String)
    requires
        i + 3 < d@.len(),
    ensures
        r@ == ipv4_text(d@, i as int),
{
    let mut s = String::new();
    push_dec(&mut s, d[i] as u64);
    push_str(&mut s, ".");
    push_dec(&mut s, d[i + 1] as u64);
    push_str(&mut s, ".");
    push_dec(&mut s, d[i + 2] as u64);
    push_str(&mut s, ".");
    push_dec(&mut s, d[i + 3] as u64);
    assert(s@ =~= ipv4_text(d@, i as int));
    s
}

/// The TCP reading of a transport payload: ports and details from a
/// complete 20-byte header; the payload is what follows the header length
/// the data-offset field declares.
pub open spec fn tcp_info(d: Seq<u8>) -> TransportView {
    if d.len() < 20 {
        ("TCP"@, None, None, Seq::empty(), None)
    } else {
        let data_offset = ((d[12] / 16) % 16) as int * 4;
        let payload = if d.len() > data_offset { (d.len() - data_offset) as u32 } else { 0u32 };
        (
            "TCP"@,
            Some(be16(d, 0) as u16),
            Some(be16(d, 2) as u16),
            Seq::empty(),
            Some(
                TcpDetails {
                    seq: be32(d, 4) as u32,
                    ack: be32(d, 8) as u32,
                    flags: d[13],
                    window: be16(d, 14) as u16,
                    payload_len: payload,
                },
            ),
        )
    }
}

/// Reads the TCP header of a transport payload.
pub fn parse_tcp_info(data: &[u8]) -> (r: (String, Option<u16>, Option<u16>, String, Option<TcpDetails>))
    ensures
        transport_view(r) == tcp_info(data@),
{
    let n = data.len();
    if n < 20 {
        return (String::from_str("TCP"), None, None, String::new(), None);
    }
    let src_port = read_be16(data, 0);
    let dst_port = read_be16(data, 2);
    let seq = read_be32(data, 4);
    let ack = read_be32(data, 8);
    let b12 = data[12];
    let hl = (b12 >> 4) & 0x0F;
    assert(hl == (b12 / 16) % 16) by (bit_vector)
        requires
            hl == (b12 >> 4) & 0x0F,
    ;
    let data_offset = (hl as usize) * 4;
    let flags = data[13];
    let window = read_be16(data, 14);
    let payload_len: u32 = if n > data_offset { (n - data_offset) as u32 } else { 0 };
    let tcp_details = TcpDetails { seq, ack, flags, window, payload_len };
    (String::from_str("TCP"), Some(src_port), Some(dst_port), String::new(), Some(tcp_details))
}

/// The UDP reading of a transport payload: ports from a complete 8-byte
/// header.
pub open spec fn udp_info(d: Seq<u8>) -> (Seq<char>, Option<u16>, Option<u16>, Seq<char>) {
    if d.len() < 8 {
        ("UDP"@, None, None, Seq::empty())
    } else {
        ("UDP"@, Some(be16(d, 0) as u16), Some(be16(d, 2) as u16), Seq::empty())
    }
}

/// Reads the UDP header of a transport payload.
pub fn parse_udp_info(data: &[u8]) -> (r: (String, Option<u16>, Option<u16>, String))
    ensures
        (r.0@, r.1, r.2, r.3@) == udp_info(data@),
{
    if data.len() < 8 {
        return (String::from_str("UDP"), None, None, String::new());
    }
    let src_port = read_be16(data, 0);
    let dst_port = read_be16(data, 2);
    (String::from_str("UDP"), Some(src_port), Some(dst_port), String::new())
}

/// The description of an ICMP message by type and code.
pub open spec fn control_message_text(d: Seq<u8>) -> Seq<char> {
    if d.len() < 2 {
        Seq::empty()
    } else if d[0] == 0 {
        "Echo Reply"@
    } else if d[0] == 8 {
        "Echo Request"@
    } else if d[0] == 3 && d[1] == 0 {
        "Dest Unreachable (Net)"@
    } else if d[0] == 3 && d[1] == 1 {
        "Dest Unreachable (Host)"@
    } else if d[0] == 3 && d[1] == 3 {
        "Dest Unreachable (Port)"@
    } else if d[0] == 11 {
        "Time Exceeded"@
    } else {
        "Type="@ + dec(d[0] as nat) + " Code="@ + dec(d[1] as nat)
    }
}

/// What RFC 792 says a destination-unreachable message (type 3) with
/// code `code` cannot reach: the network (0), the host (1) or the port (3).
pub open spec fn unreachable_target(code: u8) -> Option<Seq<char>> {
    if code == 0 {
        Some("Net"@)
    } else if code == 1 {
        Some("Host"@)
    } else if code == 3 {
        Some("Port"@)
    } else {
        None
    }
}

/// An ICMP description depends on the type and code alone, and a
/// destination-unreachable message names, as RFC 792 codes it, what could
/// not be reached.
pub proof fn lemma_icmp_description(d: Seq<u8>)
    requires
        d.len() >= 2,
    ensures
        control_message_text(d) == control_message_text(d.take(2)),
        d[0] == 3 ==> (unreachable_target(d[1]) matches Some(w) ==> control_message_text(d) == "Dest Unreachable ("@ + w
            + ")"@),
{
    reveal_strlit("Dest Unreachable (");
    reveal_strlit(")");
    reveal_strlit("Net");
    reveal_strlit("Host");
    reveal_strlit("Port");
    reveal_strlit("Dest Unreachable (Net)");
    reveal_strlit("Dest Unreachable (Host)");
    reveal_strlit("Dest Unreachable (Port)");
    if d[0] == 3 {
        if d[1] == 0 {
            assert("Dest Unreachable ("@ + "Net"@ + ")"@ =~= "Dest Unreachable (Net)"@);
        } else if d[1] == 1 {
            assert("Dest Unreachable ("@ + "Host"@ + ")"@ =~= "Dest Unreachable (Host)"@);
        } else if d[1] == 3 {
            assert("Dest Unreachable ("@ + "Port"@ + ")"@ =~= "Dest Unreachable (Port)"@);
        }
    }
}

/// Appends a byte in decimal.
fn push_byte_dec(s: &mut String, b: u8)
    ensures
        final(s)@ == old(s)@ + dec(b as nat),
{
    push_dec(s, b as u64);
}

/// Describes an ICMP message.
pub fn parse_icmp_info(data: &[u8]) -> (r: String)
    ensures
        r@ == control_message_text(data@),
{
    if data.len() < 2 {
        return String::new();
    }
    match (data[0], data[1]) {
        (0, _) => String::from_str("Echo Reply"),
        (8, _) => String::from_str("Echo Request"),
        (3, 0) => String::from_str("Dest Unreachable (Net)"),
        (3, 1) => String::from_str("Dest Unreachable (Host)"),
        (3, 3) => String::from_str("Dest Unreachable (Port)"),
        (11, _) => String::from_str("Time Exceeded"),
        (t, c) => {
            let mut s = String::from_str("Type=");
            push_byte_dec(&mut s, t);
            push_str(&mut s, " Code=");
            push_byte_dec(&mut s, c);
            assert(s@ =~= control_message_text(data@));
            s
        },
    }
}


/// The optional view of an optional packet.
pub open spec fn opt_packet(r: Option<PacketInfo>) -> Option<PacketView> {
    match r {
        Some(p) => Some(p@),
        None => None,
    }
}

/// A packet assembled from its addresses and transport reading; a TCP
/// reset is abnormal.
pub open spec fn packet_from(
    ts: i64,
    src: Seq<char>,
    dst: Seq<char>,
    t: TransportView,
    vlan_id: Option<u16>,
    length: u32,
) -> PacketView {
    PacketView {
        timestamp_micros: ts,
        src_addr: src,
        src_port: t.1,
        dst_addr: dst,
        dst_port: t.2,
        protocol: t.0,
        vlan_id,
        length,
        info: t.3,
        tcp_details: t.4,
        is_abnormal: match t.4 {
            Some(tcp) => bit(tcp.flags, 2),
            None => false,
        },
    }
}

/// The transport reading of an IPv4 payload by protocol number.
pub open spec fn ipv4_transport(protocol: u8, t: Seq<u8>) -> TransportView {
    if protocol == 6 {
        tcp_info(t)
    } else if protocol == 17 {
        let u = udp_info(t);
        (u.0, u.1, u.2, u.3, None)
    } else if protocol == 1 {
        ("ICMP"@, None, None, control_message_text(t), None)
    } else {
        ("IP/"@ + dec(protocol as nat), None, None, Seq::empty(), None)
    }
}

/// An IPv4 packet: needs a 20-byte header and at least the header length
/// that its IHL field declares; the length shown is the total-length field.
pub open spec fn ipv4_packet(d: Seq<u8>, ts: i64, vlan_id: Option<u16>) -> Option<PacketView> {
    if d.len() < 20 {
        None
    } else {
        let ihl = (d[0] % 16) as int * 4;
        if d.len() < ihl {
            None
        } else {
            Some(
                packet_from(
                    ts,
                    ipv4_text(d, 12),
                    ipv4_text(d, 16),
                    ipv4_transport(d[9], d.skip(ihl)),
                    vlan_id,
                    be16(d, 2) as u32,
                ),
            )
        }
    }
}

/// The transport reading of an IPv6 payload by next-header number.
pub open spec fn ipv6_transport(next_header: u8, t: Seq<u8>) -> TransportView {
    if next_header == 6 {
        tcp_info(t)
    } else if next_header == 17 {
        let u = udp_info(t);
        (u.0, u.1, u.2, u.3, None)
    } else if next_header == 58 {
        ("ICMPv6"@, None, None, Seq::empty(), None)
    } else {
        ("IPv6/"@ + dec(next_header as nat), None, None, Seq::empty(), None)
    }
}

/// An IPv6 packet: needs the 40-byte fixed header; the length shown is the
/// payload length plus the header.
pub open spec fn ipv6_packet(d: Seq<u8>, ts: i64, vlan_id: Option<u16>) -> Option<PacketView> {
    if d.len() < 40 {
        None
    } else {
        Some(
            packet_from(
                ts,
                ipv6_text(d.subrange(8, 24)),
                ipv6_text(d.subrange(24, 40)),
                ipv6_transport(d[6], d.skip(40)),
                vlan_id,
                (be16(d, 4) + 40) as u32,
            ),
        )
    }
}

/// A packet whose transport is a fixed reading (no ports, no TCP).
pub open spec fn link_packet(ts: i64, d: Seq<u8>, protocol: Seq<char>, vlan_id: Option<u16>, info: Seq<char>) -> PacketView {
    PacketView {
        timestamp_micros: ts,
        src_addr: mac_text(d.subrange(6, 12)),
        src_port: None,
        dst_addr: mac_text(d.subrange(0, 6)),
        dst_port: None,
        protocol,
        vlan_id,
        length: d.len() as u32,
        info,
        tcp_details: None,
        is_abnormal: false,
    }
}

/// An Ethernet frame: a 14-byte header, optionally an 802.1Q tag (its VLAN
/// id kept), then IPv4, IPv6, ARP or another EtherType.
pub open spec fn packet_data(d: Seq<u8>, ts: i64) -> Option<PacketView> {
    if d.len() < 14 {
        None
    } else {
        let tagged = be16(d, 12) == 0x8100 && d.len() >= 18;
        let ethertype = if tagged { be16(d, 16) } else { be16(d, 12) };
        let offset: int = if tagged { 18 } else { 14 };
        let vlan_id = if tagged { Some((be16(d, 14) % 4096) as u16) } else { None };
        let payload = d.skip(offset);
        if ethertype == 0x0800 {
            ipv4_packet(payload, ts, vlan_id)
        } else if ethertype == 0x86DD {
            ipv6_packet(payload, ts, vlan_id)
        } else if ethertype == 0x0806 {
            Some(link_packet(ts, d, "ARP"@, vlan_id, "ARP Request/Reply"@))
        } else {
            Some(link_packet(ts, d, "0x"@ + zero_pad(hex_lower(ethertype), 4), vlan_id, Seq::empty()))
        }
    }
}

fn make_packet(
    ts: i64,
    src: String,
    dst: String,
    t: (String, Option<u16>, Option<u16>, String, Option<TcpDetails>),
    vlan_id: Option<u16>,
    length: u32,
) -> (r: PacketInfo)
    ensures
        r@ == packet_from(ts, src@, dst@, transport_view(t), vlan_id, length),
{
    let (protocol, src_port, dst_port, info, tcp_details) = t;
    let is_abnormal = match tcp_details {
        Some(tcp) => has_bit(tcp.flags, 2),
        None => false,
    };
    PacketInfo {
        timestamp_micros: ts,
        src_addr: src,
        src_port,
        dst_addr: dst,
        dst_port,
        protocol,
        vlan_id,
        length,
        info,
        tcp_details,
        is_abnormal,
    }
}

/// Reads the transport payload of an IPv4 packet.
fn read_ipv4_transport(protocol: u8, transport: &[u8]) -> (t: (String, Option<u16>, Option<u16>, String, Option<TcpDetails>))
    ensures
        transport_view(t) == ipv4_transport(protocol, transport@),
{
    if protocol == 6 {
        parse_tcp_info(transport)
    } else if protocol == 17 {
        let (p, sp, dp, i) = parse_udp_info(transport);
        (p, sp, dp, i, None)
    } else if protocol == 1 {
        (String::from_str("ICMP"), None, None, parse_icmp_info(transport), None)
    } else {
        let mut name = String::from_str("IP/");
        push_byte_dec(&mut name, protocol);
        (name, None, None, String::new(), None)
    }
}

/// Decodes an IPv4 packet.
pub fn parse_ipv4_packet(data: &[u8], timestamp_micros: i64, vlan_id: Option<u16>) -> (r: Option<PacketInfo>)
    ensures
        opt_packet(r) == ipv4_packet(data@, timestamp_micros, vlan_id),
{
    let n = data.len();
    if n < 20 {
        return None;
    }
    let b0 = data[0];
    let low = b0 & 0x0F;
    assert(low == b0 % 16) by (bit_vector)
        requires
            low == b0 & 0x0F,
    ;
    let ihl = (low as usize) * 4;
    if n < ihl {
        return None;
    }
    let protocol = data[9];
    let src_ip = format_ipv4(data, 12);
    let dst_ip = format_ipv4(data, 16);
    let total_len = read_be16(data, 2);
    let transport = slice_range(data, ihl, n);
    assert(transport@ =~= data@.skip(ihl as int));
    let t = read_ipv4_transport(protocol, transport);
    assert(transport_view(t) == ipv4_transport(protocol, transport@));
    Some(make_packet(timestamp_micros, src_ip, dst_ip, t, vlan_id, total_len as u32))
}

/// Decodes an IPv6 packet.
pub fn parse_ipv6_packet(data: &[u8], timestamp_micros: i64, vlan_id: Option<u16>) -> (r: Option<PacketInfo>)
    ensures
        opt_packet(r) == ipv6_packet(data@, timestamp_micros, vlan_id),
{
    let n = data.len();
    if n < 40 {
        return None;
    }
    let next_header = data[6];
    let payload_len = read_be16(data, 4);
    let src_ip = format_ipv6(slice_range(data, 8, 24));
    let dst_ip = format_ipv6(slice_range(data, 24, 40));
    let transport = slice_range(data, 40, n);
    assert(transport@ =~= data@.skip(40));
    let t = if next_header == 6 {
        parse_tcp_info(transport)
    } else if next_header == 17 {
        let (p, sp, dp, i) = parse_udp_info(transport);
        (p, sp, dp, i, None)
    } else if next_header == 58 {
        (String::from_str("ICMPv6"), None, None, String::new(), None)
    } else {
        let mut name = String::from_str("IPv6/");
        push_dec(&mut name, next_header as u64);
        (name, None, None, String::new(), None)
    };
    assert(transport_view(t) == ipv6_transport(next_header, transport@));
    Some(make_packet(timestamp_micros, src_ip, dst_ip, t, vlan_id, (payload_len as u32) + 40))
}

/// Decodes an Ethernet frame.
pub fn parse_packet_data(data: &[u8], timestamp_micros: i64) -> (r: Option<PacketInfo>)
    ensures
        opt_packet(r) == packet_data(data@, timestamp_micros),
{
    let n = data.len();
    if n < 14 {
        return None;
    }
    let mut ethertype = read_be16(data, 12);
    let mut payload_offset: usize = 14;
    let mut vlan_id: Option<u16> = None;
    if ethertype == 0x8100 && n >= 18 {
        let tci = read_be16(data, 14);
        let id = tci & 0x0FFF;
        assert(id == tci % 4096) by (bit_vector)
            requires
                id == tci & 0x0FFF,
        ;
        vlan_id = Some(id);
        ethertype = read_be16(data, 16);
        payload_offset = 18;
    }
    let payload = slice_range(data, payload_offset, n);
    assert(payload@ =~= data@.skip(payload_offset as int));
    if ethertype == 0x0800 {
        parse_ipv4_packet(payload, timestamp_micros, vlan_id)
    } else if ethertype == 0x86DD {
        parse_ipv6_packet(payload, timestamp_micros, vlan_id)
    } else {
        let (protocol, info) = if ethertype == 0x0806 {
            (String::from_str("ARP"), String::from_str("ARP Request/Reply"))
        } else {
            let mut name = String::from_str("0x");
            push_hex_lower(&mut name, ethertype as u64, 4);
            (name, String::new())
        };
        Some(PacketInfo {
            timestamp_micros,
            src_addr: format_mac(slice_range(data, 6, 12)),
            src_port: None,
            dst_addr: format_mac(slice_range(data, 0, 6)),
            dst_port: None,
            protocol,
            vlan_id,
            length: n as u32,
            info,
            tcp_details: None,
            is_abnormal: false,
        })
    }
}

/// `addr:port`, or the address alone when there is no port.
pub open spec fn endpoint_text(addr: Seq<char>, port: Option<u16>) -> Seq<char> {
    match port {
        Some(p) => addr + ":"@ + dec(p as nat),
        None => addr,
    }
}

/// The TCP part after the flags: sequence number, acknowledgement (when the
/// ACK flag is set), window, and payload length (when non-zero).
pub open spec fn tcp_tail_text(t: TcpDetails) -> Seq<char> {
    "Seq="@ + dec(t.seq as nat) + (if bit(t.flags, 4) { " Ack="@ + dec(t.ack as nat) } else { ""@ })
        + " Win="@ + dec(t.window as nat) + (if t.payload_len > 0 {
        " Len="@ + dec(t.payload_len as nat)
    } else {
        ""@
    })
}

/// `src → dst` with ports.
pub open spec fn route_text(p: PacketView) -> Seq<char> {
    endpoint_text(p.src_addr, p.src_port) + " \u{2192} "@ + endpoint_text(p.dst_addr, p.dst_port)
}

/// The display message of a packet.
pub open spec fn message_text(p: PacketView) -> Seq<char> {
    let vlan = match p.vlan_id {
        Some(id) => " [VLAN "@ + dec(id as nat) + "]"@,
        None => ""@,
    };
    let abnormal = if p.is_abnormal { " \u{26a0}"@ } else { ""@ };
    let head = p.protocol + " "@ + route_text(p) + vlan;
    match p.tcp_details {
        None => if p.info.len() == 0 {
            head + " Len="@ + dec(p.length as nat) + abnormal
        } else {
            head + " "@ + p.info + " Len="@ + dec(p.length as nat) + abnormal
        },
        Some(t) => head + " "@ + tcp_flags_text(t.flags) + " "@ + tcp_tail_text(t) + abnormal,
    }
}

/// The detailed line of a packet, after its formatted capture time.
pub open spec fn raw_text(p: PacketView, time: Seq<char>) -> Seq<char> {
    let vlan = match p.vlan_id {
        Some(id) => " VLAN="@ + dec(id as nat),
        None => ""@,
    };
    let abnormal = if p.is_abnormal { " [ABNORMAL]"@ } else { ""@ };
    let head = "["@ + time + "] "@ + p.protocol + " "@ + route_text(p) + vlan;
    match p.tcp_details {
        None => head + " "@ + p.info + " Length="@ + dec(p.length as nat) + abnormal,
        Some(t) => head + " "@ + tcp_flags_text(t.flags) + " "@ + tcp_tail_text(t) + abnormal,
    }
}

fn push_endpoint(s: &mut String, addr: &String, port: Option<u16>)
    ensures
        final(s)@ == old(s)@ + endpoint_text(addr@, port),
{
    push_str(s, addr.as_str());
    if let Some(p) = port {
        push_str(s, ":");
        push_dec(s, p as u64);
    }
}

fn push_tcp_tail(s: &mut String, t: TcpDetails)
    ensures
        final(s)@ == old(s)@ + tcp_tail_text(t),
{
    let ghost start = s@;
    push_str(s, "Seq=");
    push_dec(s, t.seq as u64);
    if has_bit(t.flags, 4) {
        push_str(s, " Ack=");
        push_dec(s, t.ack as u64);
    } else {
        push_str(s, "");
    }
    push_str(s, " Win=");
    push_dec(s, t.window as u64);
    if t.payload_len > 0 {
        push_str(s, " Len=");
        push_dec(s, t.payload_len as u64);
    } else {
        push_str(s, "");
    }
    assert(s@ =~= start + tcp_tail_text(t));
}

impl PacketInfo {
    fn push_route(&self, s: &mut String)
        ensures
            final(s)@ == old(s)@ + route_text(self@),
    {
        let ghost start = s@;
        push_endpoint(s, &self.src_addr, self.src_port);
        push_str(s, " \u{2192} ");
        push_endpoint(s, &self.dst_addr, self.dst_port);
        assert(s@ =~= start + route_text(self@));
    }

    /// Format as a display message.
    pub fn format_message(&self) -> (r: String)
        ensures
            r@ == message_text(self@),
    {
        let mut s = String::new();
        push_str(&mut s, self.protocol.as_str());
        push_str(&mut s, " ");
        self.push_route(&mut s);
        match self.vlan_id {
            Some(id) => {
                push_str(&mut s, " [VLAN ");
                push_dec(&mut s, id as u64);
                push_str(&mut s, "]");
            },
            None => push_str(&mut s, ""),
        }
        match self.tcp_details {
            None => {
                if self.info.as_str().unicode_len() != 0 {
                    push_str(&mut s, " ");
                    push_str(&mut s, self.info.as_str());
                }
                push_str(&mut s, " Len=");
                push_dec(&mut s, self.length as u64);
            },
            Some(t) => {
                push_str(&mut s, " ");
                let f = format_tcp_flags(t.flags);
                push_str(&mut s, f.as_str());
                push_str(&mut s, " ");
                push_tcp_tail(&mut s, t);
            },
        }
        if self.is_abnormal {
            push_str(&mut s, " \u{26a0}");
        } else {
            push_str(&mut s, "");
        }
        assert(s@ =~= message_text(self@));
        s
    }

    /// Format as a detailed line; `time_text` is the capture time formatted
    /// for display.
    pub fn format_raw(&self, time_text: &str) -> (r: String)
        ensures
            r@ == raw_text(self@, time_text@),
    {
        let mut s = String::from_str("[");
        push_str(&mut s, time_text);
        push_str(&mut s, "] ");
        push_str(&mut s, self.protocol.as_str());
        push_str(&mut s, " ");
        self.push_route(&mut s);
        match self.vlan_id {
            Some(id) => {
                push_str(&mut s, " VLAN=");
                push_dec(&mut s, id as u64);
            },
            None => push_str(&mut s, ""),
        }
        match self.tcp_details {
            None => {
                push_str(&mut s, " ");
                push_str(&mut s, self.info.as_str());
                push_str(&mut s, " Length=");
                push_dec(&mut s, self.length as u64);
            },
            Some(t) => {
                push_str(&mut s, " ");
                let f = format_tcp_flags(t.flags);
                push_str(&mut s, f.as_str());
                push_str(&mut s, " ");
                push_tcp_tail(&mut s, t);
            },
        }
        if self.is_abnormal {
            push_str(&mut s, " [ABNORMAL]");
        } else {
            push_str(&mut s, "");
        }
        assert(s@ =~= raw_text(self@, time_text@));
        s
    }
}


/// The endpoints of one direction of a TCP connection.
#[derive(Clone, Debug)]
pub struct FlowKey {
    src_addr: String,
    src_port: u16,
    dst_addr: String,
    dst_port: u16,
}

/// The abstract value of a flow key.
pub type FlowKeyView = (Seq<char>, u16, Seq<char>, u16);

impl View for FlowKey {
    type V = FlowKeyView;

    closed spec fn view(&self) -> FlowKeyView {
        (self.src_addr@, self.src_port, self.dst_addr@, self.dst_port)
    }
}

/// The key of the opposite direction.
pub open spec fn reverse_key(k: FlowKeyView) -> FlowKeyView {
    (k.2, k.3, k.0, k.1)
}

impl FlowKey {
    /// A key from its endpoints.
    pub fn new(src_addr: String, src_port: u16, dst_addr: String, dst_port: u16) -> (r: Self)
        ensures
            r@ == (src_addr@, src_port, dst_addr@, dst_port),
    {
        FlowKey { src_addr, src_port, dst_addr, dst_port }
    }

    /// The key of the opposite direction.
    pub fn reverse(&self) -> (r: Self)
        ensures
            r@ == reverse_key(self@),
    {
        FlowKey {
            src_addr: self.dst_addr.clone(),
            src_port: self.dst_port,
            dst_addr: self.src_addr.clone(),
            dst_port: self.src_port,
        }
    }

    /// A copy of this key.
    pub fn duplicate(&self) -> (r: Self)
        ensures
            r@ == self@,
    {
        FlowKey {
            src_addr: self.src_addr.clone(),
            src_port: self.src_port,
            dst_addr: self.dst_addr.clone(),
            dst_port: self.dst_port,
        }
    }

    /// Key equality.
    pub fn same(&self, other: &FlowKey) -> (r: bool)
        ensures
            r == (self@ == other@),
    {
        self.src_port == other.src_port && self.dst_port == other.dst_port && self.src_addr
            == other.src_addr && self.dst_addr == other.dst_addr
    }
}

/// The most segments a flow remembers for retransmission detection.
pub const RECENT_SEGMENTS: usize = 10;

/// Sequence tracking state of one TCP flow direction.
#[derive(Clone, Debug)]
pub struct TcpFlowState {
    next_seq: u32,
    last_ack: u32,
    dup_ack_count: u8,
    recent_seqs: Vec<(u32, u32)>,
}

/// The abstract value of a flow state: next expected sequence number, last
/// acknowledgement, duplicate-ACK count and the recent `(seq, len)`
/// segments, oldest first.
pub struct FlowStateView {
    pub next_seq: u32,
    pub last_ack: u32,
    pub dup_ack_count: u8,
    pub recent: Seq<(u32, u32)>,
}

impl View for TcpFlowState {
    type V = FlowStateView;

    closed spec fn view(&self) -> FlowStateView {
        FlowStateView {
            next_seq: self.next_seq,
            last_ack: self.last_ack,
            dup_ack_count: self.dup_ack_count,
            recent: self.recent_seqs@,
        }
    }
}

/// The state of a flow that has seen nothing.
pub open spec fn fresh_state() -> FlowStateView {
    FlowStateView { next_seq: 0, last_ack: 0, dup_ack_count: 0, recent: Seq::empty() }
}

/// A segment with payload repeats or overlaps a remembered segment: same
/// start and length, or it starts before the next expected sequence number
/// and ends after a remembered start (the end computed modulo 2^32).
pub open spec fn is_retransmission_of(s: FlowStateView, seq: u32, payload_len: u32) -> bool {
    payload_len != 0 && exists|i: int|
        0 <= i < s.recent.len() && #[trigger] overlaps(s, s.recent[i], seq, payload_len)
}

/// `seg` is the same segment, or one that `seq..seq+len` overlaps while
/// starting below the next expected number.
pub open spec fn overlaps(s: FlowStateView, seg: (u32, u32), seq: u32, payload_len: u32) -> bool {
    (seq == seg.0 && payload_len == seg.1) || (seq < s.next_seq && seq.wrapping_add(payload_len)
        > seg.0)
}

/// A segment with payload starts beyond the next expected sequence number
/// (once one is known).
pub open spec fn is_out_of_order_in(s: FlowStateView, seq: u32, payload_len: u32) -> bool {
    payload_len != 0 && s.next_seq != 0 && seq > s.next_seq
}

/// The flow state after a segment: a segment with payload is remembered
/// (the oldest forgotten beyond ten) and advances the next expected number
/// when it is the first or in order; an acknowledgement repeating the last
/// one without payload counts as a duplicate, any other resets the count.
pub open spec fn updated_state(
    s: FlowStateView,
    seq: u32,
    ack: u32,
    payload_len: u32,
    has_ack_flag: bool,
) -> FlowStateView {
    let s1 = if payload_len > 0 {
        let pushed = s.recent.push((seq, payload_len));
        FlowStateView {
            recent: if pushed.len() > 10 { pushed.drop_first() } else { pushed },
            next_seq: if s.next_seq == 0 || seq == s.next_seq {
                seq.wrapping_add(payload_len)
            } else {
                s.next_seq
            },
            ..s
        }
    } else {
        s
    };
    if has_ack_flag {
        if ack == s1.last_ack && payload_len == 0 {
            FlowStateView { dup_ack_count: s1.dup_ack_count.wrapping_add(1), ..s1 }
        } else {
            FlowStateView { dup_ack_count: 0, last_ack: ack, ..s1 }
        }
    } else {
        s1
    }
}

/// How segments move the duplicate-acknowledgement tracking of a flow:
/// a segment with the ACK flag makes its acknowledgement number the last
/// one; one without leaves the tracking alone; a payload-free segment
/// acknowledging the same number again adds one duplicate (modulo 256),
/// and any other acknowledging segment starts the count over.
pub proof fn lemma_ack_tracking(s: FlowStateView, seq: u32, ack: u32, payload_len: u32, has_ack_flag: bool)
    ensures
        has_ack_flag ==> updated_state(s, seq, ack, payload_len, has_ack_flag).last_ack == ack,
        !has_ack_flag ==> updated_state(s, seq, ack, payload_len, has_ack_flag).last_ack == s.last_ack
            && updated_state(s, seq, ack, payload_len, has_ack_flag).dup_ack_count == s.dup_ack_count,
        has_ack_flag && ack == s.last_ack && payload_len == 0 ==> updated_state(
            s,
            seq,
            ack,
            payload_len,
            has_ack_flag,
        ).dup_ack_count as int == (s.dup_ack_count as int + 1) % 256,
        has_ack_flag && (ack != s.last_ack || payload_len > 0) ==> updated_state(
            s,
            seq,
            ack,
            payload_len,
            has_ack_flag,
        ).dup_ack_count == 0,
{
}

/// On a fresh flow, the same payload-free acknowledgement (of a nonzero
/// number) seen three times has been counted twice as a duplicate, so the
/// fourth is reported as duplicate number three.
pub proof fn lemma_third_repeat_counts_two(ack: u32, seq1: u32, seq2: u32, seq3: u32)
    requires
        ack != 0,
    ensures
        ({
            let s1 = updated_state(fresh_state(), seq1, ack, 0, true);
            let s2 = updated_state(s1, seq2, ack, 0, true);
            let s3 = updated_state(s2, seq3, ack, 0, true);
            &&& s1.dup_ack_count == 0
            &&& s2.dup_ack_count == 1
            &&& s3.dup_ack_count == 2
            &&& s3.last_ack == ack
        }),
{
    let s1 = updated_state(fresh_state(), seq1, ack, 0, true);
    lemma_ack_tracking(fresh_state(), seq1, ack, 0, true);
    lemma_ack_tracking(s1, seq2, ack, 0, true);
    let s2 = updated_state(s1, seq2, ack, 0, true);
    lemma_ack_tracking(s2, seq3, ack, 0, true);
}

impl TcpFlowState {
    /// At most ten segments are remembered.
    pub open spec fn wf(&self) -> bool {
        self@.recent.len() <= 10
    }

    /// A state that has seen nothing.
    pub fn new() -> (r: Self)
        ensures
            r@ == fresh_state(),
            r.wf(),
    {
        let r = TcpFlowState { next_seq: 0, last_ack: 0, dup_ack_count: 0, recent_seqs: Vec::new() };
        assert(r@.recent =~= fresh_state().recent);
        r
    }

    /// Whether a segment repeats or overlaps a remembered one.
    pub fn is_retransmission(&self, seq: u32, payload_len: u32) -> (r: bool)
        ensures
            r == is_retransmission_of(self@, seq, payload_len),
    {
        if payload_len == 0 {
            return false;
        }
        let mut i: usize = 0;
        while i < self.recent_seqs.len()
            invariant
                i <= self.recent_seqs@.len(),
                payload_len != 0,
                forall|k: int| 0 <= k < i ==> !#[trigger] overlaps(self@, self@.recent[k], seq, payload_len),
            decreases self.recent_seqs.len() - i,
        {
            let (old_seq, old_len) = self.recent_seqs[i];
            if seq == old_seq && payload_len == old_len {
                assert(overlaps(self@, self@.recent[i as int], seq, payload_len));
                return true;
            }
            if seq < self.next_seq && seq.wrapping_add(payload_len) > old_seq {
                assert(overlaps(self@, self@.recent[i as int], seq, payload_len));
                return true;
            }
            i += 1;
        }
        false
    }

    /// Whether a segment jumps ahead of the next expected sequence number.
    pub fn is_out_of_order(&self, seq: u32, payload_len: u32) -> (r: bool)
        ensures
            r == is_out_of_order_in(self@, seq, payload_len),
    {
        if payload_len == 0 || self.next_seq == 0 {
            return false;
        }
        seq > self.next_seq
    }

    /// Records a segment.
    pub fn update(&mut self, seq: u32, ack: u32, payload_len: u32, has_ack_flag: bool)
        requires
            old(self).wf(),
        ensures
            final(self).wf(),
            final(self)@ == updated_state(old(self)@, seq, ack, payload_len, has_ack_flag),
    {
        if payload_len > 0 {
            self.recent_seqs.push((seq, payload_len));
            if self.recent_seqs.len() > 10 {
                let _ = self.recent_seqs.remove(0);
            }
            let seq_end = seq.wrapping_add(payload_len);
            if self.next_seq == 0 || seq == self.next_seq {
                self.next_seq = seq_end;
            }
        }
        let ghost s1 = self@;
        if has_ack_flag {
            if ack == self.last_ack && payload_len == 0 {
                self.dup_ack_count = self.dup_ack_count.wrapping_add(1);
            } else {
                self.dup_ack_count = 0;
                self.last_ack = ack;
            }
        }
        proof {
            let u = updated_state(old(self)@, seq, ack, payload_len, has_ack_flag);
            if payload_len > 0 {
                let pushed = old(self)@.recent.push((seq, payload_len));
                if pushed.len() > 10 {
                    assert(s1.recent =~= pushed.drop_first());
                } else {
                    assert(s1.recent =~= pushed);
                }
            }
            assert(self@.recent =~= u.recent);
        }
    }
}

/// The index of the first entry with key `k`, at or after `i`.
pub open spec fn key_index_from(flows: Seq<(FlowKeyView, FlowStateView)>, k: FlowKeyView, i: int) -> Option<int>
    decreases flows.len() - i,
{
    if i < 0 || i >= flows.len() {
        None
    } else if flows[i].0 == k {
        Some(i)
    } else {
        key_index_from(flows, k, i + 1)
    }
}

/// The index of the entry with key `k`.
pub open spec fn key_index(flows: Seq<(FlowKeyView, FlowStateView)>, k: FlowKeyView) -> Option<int> {
    key_index_from(flows, k, 0)
}

/// The flows without the entry for `k`.
pub open spec fn without_key(flows: Seq<(FlowKeyView, FlowStateView)>, k: FlowKeyView) -> Seq<(FlowKeyView, FlowStateView)> {
    match key_index(flows, k) {
        Some(i) => flows.remove(i),
        None => flows,
    }
}

/// Some entry has key `k`.
pub open spec fn has_key(flows: Seq<(FlowKeyView, FlowStateView)>, k: FlowKeyView) -> bool {
    exists|i: int| 0 <= i < flows.len() && #[trigger] flows[i].0 == k
}

/// No two entries share a key.
pub open spec fn distinct_keys(flows: Seq<(FlowKeyView, FlowStateView)>) -> bool {
    forall|i: int, j: int| 0 <= i < j < flows.len() ==> flows[i].0 != flows[j].0
}

/// Why a TCP segment looks abnormal, given the state of its flow before it:
/// reset, retransmission, reordering, third or later duplicate ACK, zero
/// window.
pub open spec fn anomaly_reasons(s: FlowStateView, tcp: TcpDetails) -> Seq<Seq<char>> {
    (if bit(tcp.flags, 2) { seq!["RST"@] } else { seq![] }) + (if is_retransmission_of(
        s,
        tcp.seq,
        tcp.payload_len,
    ) {
        seq!["Retransmission"@]
    } else {
        seq![]
    }) + (if is_out_of_order_in(s, tcp.seq, tcp.payload_len) {
        seq!["Out-of-Order"@]
    } else {
        seq![]
    }) + (if s.dup_ack_count >= 2 && bit(tcp.flags, 4) {
        seq!["Dup ACK #"@ + dec(s.dup_ack_count.wrapping_add(1) as nat)]
    } else {
        seq![]
    }) + (if tcp.window == 0 && bit(tcp.flags, 4) { seq!["ZeroWindow"@] } else { seq![] })
}

/// The flow table and packet after analysing a packet: TCP packets with
/// both ports update the state of their flow (created when new) and have
/// their anomalies appended to the info text; a FIN or RST closes the flow
/// in both directions. Other packets pass unchanged.
pub open spec fn analyzed(flows: Seq<(FlowKeyView, FlowStateView)>, p: PacketView) -> (Seq<(FlowKeyView, FlowStateView)>, PacketView) {
    match (p.tcp_details, p.src_port, p.dst_port) {
        (Some(tcp), Some(sp), Some(dp)) => {
            let key = (p.src_addr, sp, p.dst_addr, dp);
            let (flows1, idx) = match key_index(flows, key) {
                Some(i) => (flows, i),
                None => (flows.push((key, fresh_state())), flows.len() as int),
            };
            let st = flows1[idx].1;
            let reasons = anomaly_reasons(st, tcp);
            let p1 = if reasons.len() > 0 {
                PacketView {
                    is_abnormal: true,
                    info: p.info + " ["@ + joined(reasons, ", "@) + "]"@,
                    ..p
                }
            } else {
                p
            };
            let st2 = updated_state(st, tcp.seq, tcp.ack, tcp.payload_len, bit(tcp.flags, 4));
            let flows2 = flows1.update(idx, (key, st2));
            let flows3 = if bit(tcp.flags, 0) || bit(tcp.flags, 2) {
                without_key(without_key(flows2, key), reverse_key(key))
            } else {
                flows2
            };
            (flows3, p1)
        },
        _ => (flows, p),
    }
}

/// Tracks TCP flows across packets to flag anomalies.
pub struct TcpFlowTracker {
    /// The flow table: each key at most once (see `wf`), in the order the
    /// flows were first seen. It is a list rather than a hash map because
    /// the key is a struct of addresses and ports, for which the hash map's
    /// specification lets nothing be proved about lookups; the list keeps
    /// the map's contract (one state per key) as an invariant, and its
    /// order makes `cleanup` drop the oldest flows.
    flows: Vec<(FlowKey, TcpFlowState)>,
}

impl View for TcpFlowTracker {
    type V = Seq<(FlowKeyView, FlowStateView)>;

    closed spec fn view(&self) -> Seq<(FlowKeyView, FlowStateView)> {
        self.flows@.map_values(|e: (FlowKey, TcpFlowState)| (e.0@, e.1@))
    }
}

impl TcpFlowTracker {
    /// Keys are unique and every state keeps at most ten segments.
    pub closed spec fn wf(&self) -> bool {
        &&& distinct_keys(self@)
        &&& forall|i: int| 0 <= i < self@.len() ==> (#[trigger] self@[i]).1.recent.len() <= 10
    }

    /// An empty tracker.
    pub fn new() -> (r: Self)
        ensures
            r.wf(),
            r@ == Seq::<(FlowKeyView, FlowStateView)>::empty(),
    {
        let r = TcpFlowTracker { flows: Vec::new() };
        assert(r@ =~= Seq::<(FlowKeyView, FlowStateView)>::empty());
        r
    }

    /// The index of the entry with key `key`.
    fn find(&self, key: &FlowKey) -> (r: Option<usize>)
        ensures
            r matches Some(i) ==> key_index(self@, key@) == Some(i as int) && i < self@.len(),
            r is None ==> key_index(self@, key@) is None,
    {
        let mut i: usize = 0;
        while i < self.flows.len()
            invariant
                i <= self.flows@.len(),
                key_index(self@, key@) == key_index_from(self@, key@, i as int),
            decreases self.flows.len() - i,
        {
            if self.flows[i].0.same(key) {
                return Some(i);
            }
            i += 1;
        }
        None
    }

    /// Removes the entry with key `key`, if any.
    fn remove_key(&mut self, key: &FlowKey)
        requires
            old(self).wf(),
        ensures
            final(self).wf(),
            final(self)@ == without_key(old(self)@, key@),
    {
        if let Some(i) = self.find(key) {
            let ghost before = self.flows@;
            let _ = self.flows.remove(i);
            assert(self@ =~= old(self)@.remove(i as int));
        }
    }

    /// Analyses one packet: updates its flow and marks anomalies in it.
    pub fn analyze_packet(&mut self, packet: &mut PacketInfo)
        requires
            old(self).wf(),
        ensures
            final(self).wf(),
            (final(self)@, final(packet)@) == analyzed(old(self)@, old(packet)@),
    {
        let tcp = match packet.tcp_details {
            Some(t) => t,
            None => return,
        };
        let (src_port, dst_port) = match (packet.src_port, packet.dst_port) {
            (Some(s), Some(d)) => (s, d),
            _ => return,
        };
        let flow_key = FlowKey::new(packet.src_addr.clone(), src_port, packet.dst_addr.clone(), dst_port);
        let idx = match self.find(&flow_key) {
            Some(i) => i,
            None => {
                let ghost before = self@;
                self.flows.push((flow_key.duplicate(), TcpFlowState::new()));
                assert(self@ =~= before.push((flow_key@, fresh_state())));
                self.flows.len() - 1
            },
        };
        let ghost flows1 = self@;
        proof {
            if key_index(old(self)@, flow_key@) is Some {
                lemma_key_index_some(old(self)@, flow_key@, 0);
            }
            assert(flows1[idx as int].0 == flow_key@);
            assert(flows1[idx as int].1.recent.len() <= 10);
        }
        let ghost before_remove = self.flows@;
        let (key, mut state) = self.flows.remove(idx);
        assert(key@ == flows1[idx as int].0 && state@ == flows1[idx as int].1);
        let ghost st = state@;
        let ack_flag = has_bit(tcp.flags, 4);
        let mut reasons: Vec<String> = Vec::new();
        let ghost mut rs: Seq<Seq<char>> = seq![];
        if has_bit(tcp.flags, 2) {
            reasons.push(String::from_str("RST"));
            proof { rs = rs.push("RST"@); }
        }
        if state.is_retransmission(tcp.seq, tcp.payload_len) {
            reasons.push(String::from_str("Retransmission"));
            proof { rs = rs.push("Retransmission"@); }
        }
        if state.is_out_of_order(tcp.seq, tcp.payload_len) {
            reasons.push(String::from_str("Out-of-Order"));
            proof { rs = rs.push("Out-of-Order"@); }
        }
        if state.dup_ack_count >= 2 && ack_flag {
            let mut s = String::from_str("Dup ACK #");
            push_dec(&mut s, state.dup_ack_count.wrapping_add(1) as u64);
            proof { rs = rs.push(s@); }
            reasons.push(s);
        }
        if tcp.window == 0 && ack_flag {
            reasons.push(String::from_str("ZeroWindow"));
            proof { rs = rs.push("ZeroWindow"@); }
        }
        assert(crate::text::texts(reasons@) =~= rs);
        assert(rs =~= anomaly_reasons(st, tcp));
        if reasons.len() > 0 {
            packet.is_abnormal = true;
            let joined_reasons = crate::text::join_strings(&reasons, ", ");
            push_str(&mut packet.info, " [");
            push_str(&mut packet.info, joined_reasons.as_str());
            push_str(&mut packet.info, "]");
        }
        state.update(tcp.seq, tcp.ack, tcp.payload_len, ack_flag);
        let ghost mid = self@;
        self.flows.insert(idx, (key, state));
        proof {
            assert(self@ =~= flows1.update(idx as int, (flow_key@, state@)));
            assert forall|i: int, j: int| 0 <= i < j < self@.len() implies self@[i].0 != self@[j].0 by {
                assert(flows1[i].0 == self@[i].0);
                assert(flows1[j].0 == self@[j].0);
                if key_index(old(self)@, flow_key@) is None {
                    lemma_key_index_none(old(self)@, flow_key@);
                }
            }
            assert forall|i: int| 0 <= i < self@.len() implies (#[trigger] self@[i]).1.recent.len() <= 10 by {
                assert(flows1[i].1.recent.len() <= 10 || i == idx);
            }
        }
        if tcp.flags & 0x05 != 0 {
            let rev = flow_key.reverse();
            self.remove_key(&flow_key);
            self.remove_key(&rev);
        }
        proof {
            assert((tcp.flags & 0x05 != 0) == (bit(tcp.flags, 0) || bit(tcp.flags, 2))) by {
                lemma_fin_or_rst(tcp.flags);
            }
        }
    }

    /// Drops the oldest flows until at most `max_flows` remain.
    pub fn cleanup(&mut self, max_flows: usize)
        requires
            old(self).wf(),
        ensures
            final(self).wf(),
            old(self)@.len() <= max_flows ==> final(self)@ == old(self)@,
            old(self)@.len() > max_flows ==> final(self)@ == old(self)@.skip(
                old(self)@.len() - max_flows,
            ),
    {
        if self.flows.len() > max_flows {
            let to_remove = self.flows.len() - max_flows;
            let rest = self.flows.split_off(to_remove);
            let ghost dropped = self.flows@;
            self.flows = rest;
            assert(self@ =~= old(self)@.skip(to_remove as int));
            assert forall|i: int| 0 <= i < self@.len() implies (#[trigger] self@[i]).1.recent.len() <= 10 by {
                assert(self@[i] == old(self)@[i + to_remove]);
            }
        }
    }
}

/// `flags & 0x05 != 0` exactly when FIN or RST is set.
proof fn lemma_fin_or_rst(flags: u8)
    ensures
        (flags & 0x05 != 0) == (bit(flags, 0) || bit(flags, 2)),
{
    vstd::arithmetic::power2::lemma2_to64();
    assert((flags & 0x05 != 0) == (flags % 2 == 1 || (flags / 4) % 2 == 1)) by (bit_vector);
}

/// A found index holds the key.
proof fn lemma_key_index_some(flows: Seq<(FlowKeyView, FlowStateView)>, k: FlowKeyView, from: int)
    requires
        0 <= from,
        key_index_from(flows, k, from) is Some,
    ensures
        ({
            let j = key_index_from(flows, k, from)->0;
            from <= j < flows.len() && flows[j].0 == k
        }),
    decreases flows.len() - from,
{
    if from < flows.len() && flows[from].0 != k {
        lemma_key_index_some(flows, k, from + 1);
    }
}

/// When no entry has key `k`, every entry's key differs from `k`.
proof fn lemma_key_index_none(flows: Seq<(FlowKeyView, FlowStateView)>, k: FlowKeyView)
    requires
        key_index(flows, k) is None,
    ensures
        forall|i: int| 0 <= i < flows.len() ==> flows[i].0 != k,
{
    assert forall|i: int| 0 <= i < flows.len() implies flows[i].0 != k by {
        lemma_key_index_from_none(flows, k, 0, i);
    }
}

proof fn lemma_key_index_from_none(flows: Seq<(FlowKeyView, FlowStateView)>, k: FlowKeyView, from: int, i: int)
    requires
        0 <= from <= i < flows.len(),
        key_index_from(flows, k, from) is None,
    ensures
        flows[i].0 != k,
    decreases i - from,
{
    if from < i {
        lemma_key_index_from_none(flows, k, from + 1, i);
    }
}


/// Removing a key from a table with unique keys leaves no entry with that
/// key, keeps keys unique, and keeps every other entry.
pub proof fn lemma_without_key(flows: Seq<(FlowKeyView, FlowStateView)>, k: FlowKeyView)
    requires
        distinct_keys(flows),
    ensures
        !has_key(without_key(flows, k), k),
        distinct_keys(without_key(flows, k)),
        forall|k2: FlowKeyView| k2 != k ==> (has_key(without_key(flows, k), k2) == has_key(flows, k2)),
{
    let r = without_key(flows, k);
    match key_index(flows, k) {
        Some(i) => {
            lemma_key_index_some(flows, k, 0);
            assert forall|j: int| 0 <= j < r.len() implies #[trigger] r[j].0 != k by {
                if j < i {
                    assert(r[j] == flows[j]);
                } else {
                    assert(r[j] == flows[j + 1]);
                }
            }
            assert forall|k2: FlowKeyView| k2 != k implies (has_key(r, k2) == has_key(flows, k2)) by {
                if has_key(flows, k2) {
                    let j = choose|j: int| 0 <= j < flows.len() && #[trigger] flows[j].0 == k2;
                    if j < i {
                        assert(r[j].0 == k2);
                    } else {
                        assert(j != i);
                        assert(r[j - 1].0 == k2);
                    }
                }
                if has_key(r, k2) {
                    let j = choose|j: int| 0 <= j < r.len() && #[trigger] r[j].0 == k2;
                    if j < i {
                        assert(flows[j].0 == k2);
                    } else {
                        assert(flows[j + 1].0 == k2);
                    }
                }
            }
            assert forall|a: int, b: int| 0 <= a < b < r.len() implies r[a].0 != r[b].0 by {
                let fa = if a < i { a } else { a + 1 };
                let fb = if b < i { b } else { b + 1 };
                assert(r[a] == flows[fa] && r[b] == flows[fb]);
            }
        },
        None => {
            lemma_key_index_none(flows, k);
        },
    }
}

/// Once a FIN or RST of a flow has been analysed, the tracker holds no
/// state for that connection in either direction, and its keys stay unique.
pub proof fn lemma_closing_segment_forgets_flow(
    flows: Seq<(FlowKeyView, FlowStateView)>,
    p: PacketView,
    tcp: TcpDetails,
    sp: u16,
    dp: u16,
)
    requires
        distinct_keys(flows),
        p.tcp_details == Some(tcp),
        p.src_port == Some(sp),
        p.dst_port == Some(dp),
        bit(tcp.flags, 0) || bit(tcp.flags, 2),
    ensures
        ({
            let r = analyzed(flows, p).0;
            let key = (p.src_addr, sp, p.dst_addr, dp);
            &&& !has_key(r, key)
            &&& !has_key(r, reverse_key(key))
            &&& distinct_keys(r)
        }),
{
    let key = (p.src_addr, sp, p.dst_addr, dp);
    let (flows1, idx) = match key_index(flows, key) {
        Some(i) => (flows, i),
        None => (flows.push((key, fresh_state())), flows.len() as int),
    };
    match key_index(flows, key) {
        Some(i) => {
            lemma_key_index_some(flows, key, 0);
        },
        None => {
            lemma_key_index_none(flows, key);
        },
    }
    assert(distinct_keys(flows1));
    let st = flows1[idx].1;
    let st2 = updated_state(st, tcp.seq, tcp.ack, tcp.payload_len, bit(tcp.flags, 4));
    let flows2 = flows1.update(idx, (key, st2));
    assert(distinct_keys(flows2)) by {
        assert forall|a: int, b: int| 0 <= a < b < flows2.len() implies flows2[a].0 != flows2[b].0 by {
            assert(flows2[a].0 == flows1[a].0 && flows2[b].0 == flows1[b].0);
        }
    }
    lemma_without_key(flows2, key);
    let f3 = without_key(flows2, key);
    lemma_without_key(f3, reverse_key(key));
    assert(analyzed(flows, p).0 == without_key(f3, reverse_key(key)));
}

/// A decoded TCP segment with the RST flag is marked abnormal.
pub proof fn lemma_reset_is_abnormal(d: Seq<u8>, ts: i64)
    requires
        packet_data(d, ts) is Some,
        packet_data(d, ts)->0.tcp_details is Some,
        bit(packet_data(d, ts)->0.tcp_details->0.flags, 2),
    ensures
        packet_data(d, ts)->0.is_abnormal,
{
}

/// Analysis never clears an abnormal mark and never changes a packet
/// other than its mark and info.
pub proof fn lemma_analysis_keeps_packet(flows: Seq<(FlowKeyView, FlowStateView)>, p: PacketView)
    ensures
        ({
            let q = analyzed(flows, p).1;
            &&& p.is_abnormal ==> q.is_abnormal
            &&& q.src_addr == p.src_addr && q.dst_addr == p.dst_addr && q.protocol == p.protocol
            &&& q.tcp_details == p.tcp_details && q.length == p.length
            &&& has_prefix_chars(q.info, p.info)
        }),
{
    match (p.tcp_details, p.src_port, p.dst_port) {
        (Some(tcp), Some(sp), Some(dp)) => {
            let q = analyzed(flows, p).1;
            assert(q.info.take(p.info.len() as int) =~= p.info);
        },
        _ => {
            assert(p.info.take(p.info.len() as int) =~= p.info);
        },
    }
}

/// `p` is a prefix of `s`.
pub open spec fn has_prefix_chars(s: Seq<char>, p: Seq<char>) -> bool {
    p.len() <= s.len() && s.take(p.len() as int) == p
}

} // verus!
