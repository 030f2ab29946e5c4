use logcrab::btsnoop::avrcp::{format_ms_as_duration, format_volume, get_play_status_name};
use logcrab::btsnoop::hfp::try_parse_hfp_at_command;
use logcrab::btsnoop::rfcomm::get_rfcomm_frame_type;
use logcrab::pcap::{
    format_ipv6, format_mac, format_tcp_flags, parse_icmp_info, parse_packet_data,
    TcpFlowTracker,
};

#[test]
fn hfp_at_command_with_value() {
    assert_eq!(
        try_parse_hfp_at_command(b"AT+BRSF=959\r"),
        Some("HFP AT+BRSF (Supported Features)=959".to_string())
    );
}

#[test]
fn hfp_read_and_test_commands() {
    assert_eq!(
        try_parse_hfp_at_command(b"AT+CIND?"),
        Some("HFP AT+CIND (Indicators)? (Read)".to_string())
    );
    assert_eq!(
        try_parse_hfp_at_command(b"AT+CIND=?"),
        Some("HFP AT+CIND (Indicators)=? (Test)".to_string())
    );
    assert_eq!(try_parse_hfp_at_command(b"ATA"), Some("HFP ATA (Answer)".to_string()));
}

#[test]
fn hfp_unsolicited_results() {
    assert_eq!(
        try_parse_hfp_at_command(b"\r\n+CIEV: 2,1\r\n"),
        Some("HFP +Indicator Event:  2,1".to_string())
    );
    assert_eq!(try_parse_hfp_at_command(b"OK"), Some("HFP OK".to_string()));
    assert_eq!(try_parse_hfp_at_command(b"ERROR"), Some("HFP ERROR".to_string()));
    assert_eq!(
        try_parse_hfp_at_command(b"RING"),
        Some("HFP RING (Incoming call)".to_string())
    );
}

#[test]
fn hfp_rejects_other_payloads() {
    assert_eq!(try_parse_hfp_at_command(b"hello"), None);
    assert_eq!(try_parse_hfp_at_command(b"   "), None);
    assert_eq!(try_parse_hfp_at_command(&[0xff, 0xfe, 0x41]), None);
}

#[test]
fn avrcp_durations_and_volume() {
    assert_eq!(format_ms_as_duration(3_723_000), "1:02:03");
    assert_eq!(format_ms_as_duration(65_000), "1:05");
    assert_eq!(format_ms_as_duration(999), "0:00");
    assert_eq!(format_volume(0x7F), "Volume=100% (0x7F)");
    assert_eq!(format_volume(0x40), "Volume=50% (0x40)");
    assert_eq!(format_volume(0xFF), "Volume=100% (0x7F)");
    assert_eq!(get_play_status_name(0x01), "PLAYING");
    assert_eq!(get_play_status_name(0x42), "UNKNOWN");
}

#[test]
fn rfcomm_frame_types_ignore_the_poll_bit() {
    assert_eq!(get_rfcomm_frame_type(0x3F), "SABM");
    assert_eq!(get_rfcomm_frame_type(0x2F), "SABM");
    assert_eq!(get_rfcomm_frame_type(0xFF), "UIH");
    assert_eq!(get_rfcomm_frame_type(0x00), "Unknown");
}

#[test]
fn tcp_flags_are_listed_in_fixed_order() {
    assert_eq!(format_tcp_flags(0x12), "[SYN,ACK]");
    assert_eq!(format_tcp_flags(0x00), "[]");
    assert_eq!(format_tcp_flags(0x3F), "[SYN,ACK,FIN,RST,PSH,URG]");
}

#[test]
fn addresses_are_formatted() {
    assert_eq!(format_mac(&[0x00, 0x1b, 0x44, 0x11, 0x3a, 0xb7]), "00:1b:44:11:3a:b7");
    assert_eq!(format_mac(&[1, 2, 3]), "??:??:??:??:??:??");
    let v6 = [0x20, 0x01, 0x0d, 0xb8, 0, 0, 0, 0, 0, 0, 0, 0, 0, 0, 0, 1];
    assert_eq!(format_ipv6(&v6), "2001:db8:0:0:0:0:0:1");
    assert_eq!(format_ipv6(&v6[..8]), "::");
}

#[test]
fn icmp_messages_are_named() {
    assert_eq!(parse_icmp_info(&[8, 0]), "Echo Request");
    assert_eq!(parse_icmp_info(&[0, 0]), "Echo Reply");
    assert_eq!(parse_icmp_info(&[3, 3]), "Dest Unreachable (Port)");
    assert_eq!(parse_icmp_info(&[5, 1]), "Type=5 Code=1");
    assert_eq!(parse_icmp_info(&[8]), "");
}

fn ethernet(ethertype: u16, payload: &[u8]) -> Vec<u8> {
    let mut p = vec![0x00, 0x11, 0x22, 0x33, 0x44, 0x55, 0x66, 0x77, 0x88, 0x99, 0xaa, 0xbb];
    p.extend_from_slice(&ethertype.to_be_bytes());
    p.extend_from_slice(payload);
    p
}

fn ipv4(protocol: u8, transport: &[u8]) -> Vec<u8> {
    let total = (20 + transport.len()) as u16;
    let mut p = vec![0x45, 0, 0, 0, 0, 0, 0, 0, 64, protocol, 0, 0, 192, 168, 1, 1, 10, 0, 0, 2];
    p[2..4].copy_from_slice(&total.to_be_bytes());
    p.extend_from_slice(transport);
    p
}

fn tcp(seq: u32, ack: u32, flags: u8, window: u16, payload: usize) -> Vec<u8> {
    let mut t = vec![0x1f, 0x90, 0x00, 0x50];
    t.extend_from_slice(&seq.to_be_bytes());
    t.extend_from_slice(&ack.to_be_bytes());
    t.push(0x50);
    t.push(flags);
    t.extend_from_slice(&window.to_be_bytes());
    t.extend_from_slice(&[0, 0, 0, 0]);
    t.extend(std::iter::repeat(0xab).take(payload));
    t
}

#[test]
fn udp_packet_is_described() {
    let udp = [0x14, 0xe9, 0x00, 0x35, 0x00, 0x08, 0x00, 0x00];
    let frame = ethernet(0x0800, &ipv4(17, &udp));
    let p = parse_packet_data(&frame, 5).expect("IPv4 packet");
    assert_eq!(p.protocol, "UDP");
    assert_eq!(p.src_addr, "192.168.1.1");
    assert_eq!(p.dst_port, Some(53));
    assert_eq!(p.length, 28);
    assert_eq!(p.timestamp_micros, 5);
    assert_eq!(p.format_message(), "UDP 192.168.1.1:5353 \u{2192} 10.0.0.2:53 Len=28");
}

#[test]
fn tcp_reset_is_abnormal() {
    let frame = ethernet(0x0800, &ipv4(6, &tcp(7, 0, 0x04, 0, 0)));
    let p = parse_packet_data(&frame, 0).expect("IPv4 packet");
    assert!(p.is_abnormal);
    assert_eq!(
        p.format_message(),
        "TCP 192.168.1.1:8080 \u{2192} 10.0.0.2:80 [RST] Seq=7 Win=0 \u{26a0}"
    );
}

#[test]
fn arp_and_unknown_frames() {
    let arp = ethernet(0x0806, &[0u8; 28]);
    let p = parse_packet_data(&arp, 0).expect("ARP frame");
    assert_eq!(p.protocol, "ARP");
    assert_eq!(p.info, "ARP Request/Reply");
    assert_eq!(p.length, 42);
    assert_eq!(p.src_addr, "66:77:88:99:aa:bb");
    let lldp = ethernet(0x88cc, &[0u8; 4]);
    assert_eq!(parse_packet_data(&lldp, 0).expect("frame").protocol, "0x88cc");
    assert!(parse_packet_data(&[0u8; 13], 0).is_none());
}

#[test]
fn vlan_tag_is_read() {
    let udp = [0x14, 0xe9, 0x00, 0x35, 0x00, 0x08, 0x00, 0x00];
    let mut inner = vec![0x20, 0x05, 0x08, 0x00];
    inner.extend(ipv4(17, &udp));
    let frame = ethernet(0x8100, &inner);
    let p = parse_packet_data(&frame, 0).expect("tagged packet");
    assert_eq!(p.vlan_id, Some(5));
    assert_eq!(p.format_message(), "UDP 192.168.1.1:5353 \u{2192} 10.0.0.2:53 [VLAN 5] Len=28");
}

#[test]
fn retransmission_is_flagged() {
    let mut tracker = TcpFlowTracker::new();
    let frame = ethernet(0x0800, &ipv4(6, &tcp(1000, 1, 0x10, 512, 100)));
    let mut first = parse_packet_data(&frame, 0).expect("packet");
    tracker.analyze_packet(&mut first);
    assert!(!first.is_abnormal);
    let mut again = parse_packet_data(&frame, 1).expect("packet");
    tracker.analyze_packet(&mut again);
    assert!(again.is_abnormal);
    assert_eq!(again.info, " [Retransmission]");
}

#[test]
fn gap_in_sequence_is_out_of_order() {
    let mut tracker = TcpFlowTracker::new();
    let mut a = parse_packet_data(&ethernet(0x0800, &ipv4(6, &tcp(1000, 1, 0x10, 512, 100))), 0).expect("packet");
    tracker.analyze_packet(&mut a);
    let mut b = parse_packet_data(&ethernet(0x0800, &ipv4(6, &tcp(1300, 1, 0x10, 512, 100))), 0).expect("packet");
    tracker.analyze_packet(&mut b);
    assert_eq!(b.info, " [Out-of-Order]");
}

#[test]
fn zero_window_with_ack_is_flagged() {
    let mut tracker = TcpFlowTracker::new();
    let mut a = parse_packet_data(&ethernet(0x0800, &ipv4(6, &tcp(1, 1, 0x10, 0, 0))), 0).expect("packet");
    tracker.analyze_packet(&mut a);
    assert_eq!(a.info, " [ZeroWindow]");
    assert!(a.is_abnormal);
}

#[test]
fn closing_a_flow_forgets_it() {
    let mut tracker = TcpFlowTracker::new();
    let mut a = parse_packet_data(&ethernet(0x0800, &ipv4(6, &tcp(1000, 1, 0x10, 512, 100))), 0).expect("packet");
    tracker.analyze_packet(&mut a);
    let mut fin = parse_packet_data(&ethernet(0x0800, &ipv4(6, &tcp(1100, 1, 0x11, 512, 0))), 0).expect("packet");
    tracker.analyze_packet(&mut fin);
    // The flow is gone: the same segment again is not a retransmission.
    let mut b = parse_packet_data(&ethernet(0x0800, &ipv4(6, &tcp(1000, 1, 0x10, 512, 100))), 0).expect("packet");
    tracker.analyze_packet(&mut b);
    assert!(!b.is_abnormal);
    tracker.cleanup(0);
}
