use flowtrack::addr::{IpAddress, SocketAddress};
use flowtrack::network::parser::{flags_from_byte, parse_frame, TcpFlags, MIN_FRAME_LEN};
use flowtrack::network::types::{Protocol, ProtocolState, TcpState};

fn frame(protocol: u8, src: [u8; 4], sport: u16, dst: [u8; 4], dport: u16, flags: u8, len: usize)
    -> Vec<u8> {
    let mut data = vec![0u8; len];
    if len > 14 {
        data[14] = 0x45;
    }
    if len > 23 {
        data[23] = protocol;
    }
    if len >= 34 {
        data[26..30].copy_from_slice(&src);
        data[30..34].copy_from_slice(&dst);
    }
    if len >= 38 {
        data[34] = (sport >> 8) as u8;
        data[35] = (sport & 0xff) as u8;
        data[36] = (dport >> 8) as u8;
        data[37] = (dport & 0xff) as u8;
    }
    if len > 47 {
        data[47] = flags;
    }
    data
}

#[test]
fn frames_at_the_three_minimums() {
    assert_eq!(MIN_FRAME_LEN, 42);
    assert!(parse_frame(&frame(17, [10, 0, 0, 5], 1000, [8, 8, 8, 8], 53, 0, 14)).is_none());
    assert!(parse_frame(&frame(17, [10, 0, 0, 5], 1000, [8, 8, 8, 8], 53, 0, 34)).is_none());
    assert!(parse_frame(&frame(17, [10, 0, 0, 5], 1000, [8, 8, 8, 8], 53, 0, 41)).is_none());
    let p = parse_frame(&frame(17, [10, 0, 0, 5], 1000, [8, 8, 8, 8], 53, 0, 42)).unwrap();
    assert_eq!(p.protocol, Protocol::UDP);
    assert_eq!(p.packet_len, 42);
    assert!(parse_frame(&[]).is_none());
    assert!(parse_frame(&[0u8; 13]).is_none());
}

#[test]
fn tcp_needs_its_whole_header() {
    assert!(parse_frame(&frame(6, [10, 0, 0, 5], 1000, [8, 8, 8, 8], 80, 0x02, 42)).is_none());
    assert!(parse_frame(&frame(6, [10, 0, 0, 5], 1000, [8, 8, 8, 8], 80, 0x02, 53)).is_none());
    let p = parse_frame(&frame(6, [10, 0, 0, 5], 1000, [8, 8, 8, 8], 80, 0x02, 54)).unwrap();
    assert_eq!(p.protocol, Protocol::TCP);
    assert_eq!(p.packet_len, 54);
}

#[test]
fn outgoing_tcp_packet_is_read() {
    let p = parse_frame(&frame(6, [10, 0, 0, 5], 54000, [8, 8, 8, 8], 80, 0x12, 60)).unwrap();
    assert!(p.is_outgoing);
    assert_eq!(p.local_addr, SocketAddress::new(IpAddress::V4(10, 0, 0, 5), 54000));
    assert_eq!(p.remote_addr, SocketAddress::new(IpAddress::V4(8, 8, 8, 8), 80));
    assert_eq!(p.connection_key, "TCP:10.0.0.5:54000-TCP:8.8.8.8:80");
    assert_eq!(p.protocol_state, ProtocolState::Tcp(TcpState::Unknown));
    assert_eq!(
        p.tcp_flags,
        Some(TcpFlags { syn: true, ack: true, fin: false, rst: false, psh: false, urg: false })
    );
    assert!(p.dpi_result.is_none());
}

#[test]
fn incoming_packet_has_its_destination_as_local_end() {
    let p = parse_frame(&frame(17, [8, 8, 8, 8], 53, [203, 0, 113, 7], 40000, 0, 60)).unwrap();
    assert!(!p.is_outgoing);
    assert_eq!(p.local_addr, SocketAddress::new(IpAddress::V4(203, 0, 113, 7), 40000));
    assert_eq!(p.remote_addr, SocketAddress::new(IpAddress::V4(8, 8, 8, 8), 53));
    assert_eq!(p.connection_key, "UDP:203.0.113.7:40000-UDP:8.8.8.8:53");
    assert_eq!(p.protocol_state, ProtocolState::Udp);
    assert!(p.tcp_flags.is_none());
}

#[test]
fn private_and_loopback_sources_are_outgoing() {
    let outgoing = [[10, 1, 2, 3], [172, 16, 0, 1], [172, 31, 255, 1], [192, 168, 0, 1], [127, 0, 0, 1]];
    let incoming = [[11, 0, 0, 1], [172, 15, 0, 1], [172, 32, 0, 1], [192, 167, 1, 1], [192, 169, 1, 1], [8, 8, 8, 8]];
    for src in outgoing {
        let p = parse_frame(&frame(17, src, 1, [1, 1, 1, 1], 2, 0, 60)).unwrap();
        assert!(p.is_outgoing);
        assert!(IpAddress::V4(src[0], src[1], src[2], src[3]).is_outgoing_source());
    }
    for src in incoming {
        let p = parse_frame(&frame(17, src, 1, [1, 1, 1, 1], 2, 0, 60)).unwrap();
        assert!(!p.is_outgoing);
    }
    assert!(!IpAddress::V6(1).is_outgoing_source());
}

#[test]
fn other_packets_are_dropped() {
    let mut v6 = frame(17, [10, 0, 0, 5], 1, [8, 8, 8, 8], 2, 0, 80);
    v6[14] = 0x60;
    assert!(parse_frame(&v6).is_none());
    assert!(parse_frame(&frame(1, [10, 0, 0, 5], 1, [8, 8, 8, 8], 2, 0, 80)).is_none());
    let mut long_header = frame(17, [10, 0, 0, 5], 1, [8, 8, 8, 8], 2, 0, 60);
    long_header[14] = 0x4f;
    assert!(parse_frame(&long_header).is_none());
}

#[test]
fn header_length_moves_the_transport_header() {
    let mut data = frame(17, [10, 0, 0, 5], 0, [8, 8, 8, 8], 0, 0, 70);
    data[14] = 0x46;
    data[38] = 0x01;
    data[39] = 0x02;
    data[40] = 0x03;
    data[41] = 0x04;
    let p = parse_frame(&data).unwrap();
    assert_eq!(p.local_addr.port, 258);
    assert_eq!(p.remote_addr.port, 772);
}

#[test]
fn flag_byte_is_read_bit_by_bit() {
    let f = flags_from_byte(0x01);
    assert!(f.fin && !f.syn && !f.rst && !f.psh && !f.ack && !f.urg);
    let f = flags_from_byte(0x3f);
    assert!(f.fin && f.syn && f.rst && f.psh && f.ack && f.urg);
    let f = flags_from_byte(0x18);
    assert!(!f.fin && !f.syn && !f.rst && f.psh && f.ack && !f.urg);
    let f = flags_from_byte(0xc0);
    assert!(!f.fin && !f.syn && !f.rst && !f.psh && !f.ack && !f.urg);
}
