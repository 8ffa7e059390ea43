use flowtrack::addr::{IpAddress, SocketAddress};
use flowtrack::network::dpi::DpiResult;
use flowtrack::network::linux::parse_ss_line;
use flowtrack::network::monitor::{
    connection_from_entry, fuse_entry, MonitorStats, MAX_PACKETS_PER_POLL, POLL_INTERVAL_MS,
};
use flowtrack::network::parser::{ParsedPacket, TcpFlags};
use flowtrack::network::types::{
    ApplicationProtocol, CryptoFrameReassembler, Protocol, ProtocolState, QuicInfo, TcpState,
    TlsInfo,
};
use flowtrack::network::{Connection, ConnectionState, NetworkMonitor};

const T0: u64 = 1_000_000;

fn local() -> SocketAddress {
    SocketAddress::new(IpAddress::V4(10, 0, 0, 5), 54000)
}

fn remote() -> SocketAddress {
    SocketAddress::new(IpAddress::V4(8, 8, 8, 8), 80)
}

fn tcp(local: SocketAddress, remote: SocketAddress, outgoing: bool, flags: u8, len: usize)
    -> ParsedPacket {
    ParsedPacket {
        connection_key: String::new(),
        protocol: Protocol::TCP,
        local_addr: local,
        remote_addr: remote,
        protocol_state: ProtocolState::Tcp(TcpState::Unknown),
        tcp_flags: Some(TcpFlags {
            fin: flags & 0x01 != 0,
            syn: flags & 0x02 != 0,
            rst: flags & 0x04 != 0,
            psh: flags & 0x08 != 0,
            ack: flags & 0x10 != 0,
            urg: flags & 0x20 != 0,
        }),
        is_outgoing: outgoing,
        packet_len: len,
        dpi_result: None,
    }
}

fn udp(local: SocketAddress, remote: SocketAddress, outgoing: bool, len: usize) -> ParsedPacket {
    ParsedPacket {
        connection_key: String::new(),
        protocol: Protocol::UDP,
        local_addr: local,
        remote_addr: remote,
        protocol_state: ProtocolState::Udp,
        tcp_flags: None,
        is_outgoing: outgoing,
        packet_len: len,
        dpi_result: None,
    }
}

fn established() -> NetworkMonitor {
    let mut m = NetworkMonitor::new(None, false, T0);
    m.process_packet(&tcp(local(), remote(), true, 0x02, 60), T0);
    m.process_packet(&tcp(local(), remote(), false, 0x12, 60), T0 + 1);
    m.process_packet(&tcp(local(), remote(), true, 0x10, 52), T0 + 2);
    m.process_packet(&tcp(local(), remote(), true, 0x18, 200), T0 + 3);
    m
}

fn entry(local: SocketAddress, remote: SocketAddress, state: ConnectionState) -> Connection {
    Connection::new(flowtrack::network::Protocol::TCP, local, remote, state, 0)
}

fn host(n: u8) -> SocketAddress {
    SocketAddress::new(IpAddress::V4(10, 0, 0, n), 1000)
}

fn keys(m: &NetworkMonitor) -> Vec<String> {
    m.get_connections().iter().map(|c| c.key()).collect()
}

#[test]
fn establish_and_count() {
    let m = established();
    let flows = m.get_connections();
    assert_eq!(flows.len(), 1);
    let c = &flows[0];
    assert_eq!(c.protocol_state, ProtocolState::Tcp(TcpState::Established));
    assert_eq!(c.packets_sent, 3);
    assert_eq!(c.bytes_sent, 312);
    assert_eq!(c.packets_received, 1);
    assert_eq!(c.bytes_received, 60);
    assert_eq!(c.created_at, T0);
    assert_eq!(c.last_activity, T0 + 3);
    assert_eq!(c.key(), "TCP:10.0.0.5:54000-TCP:8.8.8.8:80");
}

#[test]
fn reset_short_circuits() {
    let mut m = established();
    m.process_packet(&tcp(local(), remote(), false, 0x04, 40), T0 + 4);
    let flows = m.get_connections();
    assert_eq!(flows.len(), 1);
    assert_eq!(flows[0].protocol_state, ProtocolState::Tcp(TcpState::Closed));
    assert_eq!(flows[0].packets_received, 2);
    assert_eq!(flows[0].bytes_received, 100);
    assert_eq!(flows[0].packets_sent, 3);
    let listed = vec![entry(local(), remote(), ConnectionState::Unknown)];
    m.apply_snapshot(&listed, T0 + 5);
    assert_eq!(m.get_connections().len(), 1);
    m.apply_snapshot(&Vec::new(), T0 + 6);
    assert_eq!(m.get_connections().len(), 0);
}

#[test]
fn snapshot_fusion_adds_pid() {
    let mut m = established();
    let line: Vec<char> =
        "tcp ESTAB 0 0 10.0.0.5:54000 8.8.8.8:80 users:((\"curl\",pid=4242,fd=5))".chars().collect();
    let e = parse_ss_line(&line, T0 + 10).unwrap();
    m.apply_snapshot(&vec![e], T0 + 10);
    let flows = m.get_connections();
    assert_eq!(flows.len(), 1);
    let c = &flows[0];
    assert_eq!(c.pid, Some(4242));
    assert_eq!(c.process_name, Some("curl".to_string()));
    assert_eq!(c.packets_sent, 3);
    assert_eq!(c.bytes_sent, 312);
    assert_eq!(c.packets_received, 1);
    assert_eq!(c.bytes_received, 60);
    assert_eq!(c.protocol_state, ProtocolState::Tcp(TcpState::Established));
    assert_eq!(c.last_activity, T0 + 3);
}

#[test]
fn snapshot_does_not_make_a_known_state_unknown() {
    let mut m = established();
    m.apply_snapshot(&vec![entry(local(), remote(), ConnectionState::Unknown)], T0 + 10);
    assert_eq!(
        m.get_connections()[0].protocol_state,
        ProtocolState::Tcp(TcpState::Established)
    );
    m.apply_snapshot(&vec![entry(local(), remote(), ConnectionState::CloseWait)], T0 + 11);
    assert_eq!(m.get_connections()[0].protocol_state, ProtocolState::Tcp(TcpState::CloseWait));
    m.apply_snapshot(&vec![entry(local(), remote(), ConnectionState::Reset)], T0 + 12);
    assert_eq!(m.get_connections()[0].protocol_state, ProtocolState::Tcp(TcpState::Closed));
}

#[test]
fn snapshot_makes_flows_for_unknown_sockets() {
    let mut m = NetworkMonitor::new(None, false, T0);
    let mut e = entry(host(1), remote(), ConnectionState::Listen);
    e.pid = Some(7);
    e.process_name = Some("sshd".to_string());
    let mut u = Connection::new(
        flowtrack::network::Protocol::UDP,
        host(2),
        remote(),
        ConnectionState::Established,
        0,
    );
    u.bytes_sent = 99;
    m.apply_snapshot(&vec![e, u], T0 + 20);
    let flows = m.get_connections();
    assert_eq!(flows.len(), 2);
    assert_eq!(flows[0].protocol, Protocol::TCP);
    assert_eq!(flows[0].protocol_state, ProtocolState::Tcp(TcpState::Listen));
    assert_eq!(flows[0].pid, Some(7));
    assert_eq!(flows[0].process_name, Some("sshd".to_string()));
    assert_eq!(flows[0].packets_sent + flows[0].packets_received, 0);
    assert_eq!(flows[0].created_at, T0 + 20);
    assert_eq!(flows[0].last_activity, T0 + 20);
    assert_eq!(flows[1].protocol, Protocol::UDP);
    assert_eq!(flows[1].protocol_state, ProtocolState::Udp);
    assert_eq!(flows[1].bytes_sent, 0);
}

#[test]
fn idle_sweep_removes_udp() {
    let mut m = NetworkMonitor::new(None, false, T0);
    m.process_packet(&udp(host(1), remote(), true, 100), T0);
    m.apply_snapshot(&Vec::new(), T0 + 299_999);
    assert_eq!(m.get_connections().len(), 1);
    m.apply_snapshot(&Vec::new(), T0 + 301_000);
    assert_eq!(m.get_connections().len(), 0);
}

#[test]
fn idle_flow_stays_while_the_table_lists_it() {
    let mut m = NetworkMonitor::new(None, false, T0);
    m.process_packet(&tcp(host(1), remote(), true, 0x10, 100), T0);
    let listed = vec![entry(host(1), remote(), ConnectionState::Established)];
    m.apply_snapshot(&listed, T0 + 400_000);
    assert_eq!(m.get_connections().len(), 1);
    m.apply_snapshot(&Vec::new(), T0 + 300_000);
    assert_eq!(m.get_connections().len(), 0);
}

#[test]
fn stable_ordering_across_churn() {
    let mut m = NetworkMonitor::new(None, false, T0);
    m.process_packet(&udp(host(1), remote(), true, 10), T0);
    m.process_packet(&udp(host(2), remote(), true, 10), T0);
    m.process_packet(&tcp(host(3), remote(), true, 0x10, 10), T0);
    m.process_packet(&udp(host(2), remote(), false, 10), T0 + 1);
    assert_eq!(
        keys(&m),
        vec![
            "UDP:10.0.0.1:1000-UDP:8.8.8.8:80",
            "UDP:10.0.0.2:1000-UDP:8.8.8.8:80",
            "TCP:10.0.0.3:1000-TCP:8.8.8.8:80"
        ]
    );
    m.process_packet(&tcp(host(3), remote(), false, 0x04, 10), T0 + 2);
    m.apply_snapshot(&Vec::new(), T0 + 3);
    m.process_packet(&udp(host(4), remote(), true, 10), T0 + 4);
    m.process_packet(&udp(host(1), remote(), true, 10), T0 + 5);
    assert_eq!(
        keys(&m),
        vec![
            "UDP:10.0.0.1:1000-UDP:8.8.8.8:80",
            "UDP:10.0.0.2:1000-UDP:8.8.8.8:80",
            "UDP:10.0.0.4:1000-UDP:8.8.8.8:80"
        ]
    );
}

#[test]
fn one_flow_for_each_identity() {
    let mut m = NetworkMonitor::new(None, false, T0);
    for i in 0..20u64 {
        m.process_packet(&udp(host((i % 3) as u8), remote(), i % 2 == 0, 10), T0 + i);
        m.apply_snapshot(&vec![entry(host(0), remote(), ConnectionState::Established)], T0 + i);
    }
    let mut ks = keys(&m);
    assert_eq!(ks.len(), 4);
    ks.sort();
    ks.dedup();
    assert_eq!(ks.len(), 4);
    let flows = m.get_connections();
    let counted: u64 = flows.iter().map(|c| c.packets_sent + c.packets_received).sum();
    assert_eq!(counted, 20);
}

fn quic_packet(offset: u64, len: usize, now: u64) -> ParsedPacket {
    let mut info = QuicInfo::new(1);
    info.has_crypto_frame = true;
    let mut r = CryptoFrameReassembler::new(now);
    r.add_fragment(offset, vec![offset as u8; len], now).unwrap();
    info.crypto_reassembler = Some(r);
    let mut p = udp(local(), SocketAddress::new(IpAddress::V4(8, 8, 8, 8), 443), true, len + 50);
    p.dpi_result = Some(DpiResult { application: ApplicationProtocol::Quic(info) });
    p
}

fn reassembler_of(m: &NetworkMonitor) -> CryptoFrameReassembler {
    let flows = m.get_connections();
    match &flows[0].dpi_info.as_ref().unwrap().application {
        ApplicationProtocol::Quic(info) => info.crypto_reassembler.clone().unwrap(),
        _ => panic!("no QUIC record"),
    }
}

#[test]
fn quic_identification_via_reassembly() {
    let server = SocketAddress::new(IpAddress::V4(8, 8, 8, 8), 443);
    let mut m = NetworkMonitor::new(None, false, T0);
    m.process_packet(&quic_packet(0, 800, T0), T0);
    assert_eq!(m.pending_handshake(Protocol::UDP, &local(), &server).unwrap().len(), 800);
    m.process_packet(&quic_packet(800, 600, T0 + 1), T0 + 1);
    assert_eq!(m.pending_handshake(Protocol::UDP, &local(), &server).unwrap().len(), 1400);
    m.process_packet(&quic_packet(1400, 240, T0 + 2), T0 + 2);
    let hello = m.pending_handshake(Protocol::UDP, &local(), &server).unwrap();
    assert_eq!(hello.len(), 1640);
    assert_eq!(hello[0], 0);
    assert_eq!(hello[800], (800u64 as u8));
    assert_eq!(hello[1639], (1400u64 as u8));
    assert_eq!(m.stats().reassemblers, 1);

    let mut tls = TlsInfo::new();
    tls.sni = Some("example.com".to_string());
    m.complete_handshake(Protocol::UDP, &local(), &server, tls);
    let flows = m.get_connections();
    assert_eq!(flows.len(), 1);
    assert_eq!(flows[0].application_display(), "QUIC (example.com)");
    match &flows[0].dpi_info.as_ref().unwrap().application {
        ApplicationProtocol::Quic(info) => {
            assert_eq!(info.tls_info.as_ref().unwrap().sni, Some("example.com".to_string()));
        }
        _ => panic!("no QUIC record"),
    }
    let r = reassembler_of(&m);
    assert!(r.has_complete_tls_info());
    assert_eq!(r.get_cached_tls_info().unwrap().sni, Some("example.com".to_string()));
    assert_eq!(r.current_buffer_size(), 0);
    assert!(m.pending_handshake(Protocol::UDP, &local(), &server).is_none());

    m.process_packet(&quic_packet(1640, 100, T0 + 3), T0 + 3);
    let r = reassembler_of(&m);
    assert_eq!(r.current_buffer_size(), 0);
    assert!(r.get_fragments().is_empty());
    assert_eq!(r.contiguous_offset(), 1640);
    assert_eq!(m.get_connections()[0].packets_sent, 4);
}

#[test]
fn fragment_without_room_is_left_out() {
    let server = SocketAddress::new(IpAddress::V4(8, 8, 8, 8), 443);
    let mut m = NetworkMonitor::new(None, false, T0);
    m.process_packet(&quic_packet(0, 40 * 1024, T0), T0);
    m.process_packet(&quic_packet(40 * 1024, 30 * 1024, T0 + 1), T0 + 1);
    m.process_packet(&quic_packet(40 * 1024, 10, T0 + 2), T0 + 2);
    let r = reassembler_of(&m);
    assert_eq!(r.current_buffer_size(), 40 * 1024 + 10);
    assert_eq!(r.contiguous_offset(), 40 * 1024 + 10);
    assert_eq!(
        m.pending_handshake(Protocol::UDP, &local(), &server).unwrap().len(),
        40 * 1024 + 10
    );
}

#[test]
fn stale_reassembler_is_dropped_on_the_sweep() {
    let mut m = NetworkMonitor::new(None, false, T0);
    m.process_packet(&quic_packet(0, 100, T0), T0);
    m.apply_snapshot(&Vec::new(), T0 + 30_000);
    assert_eq!(m.stats().reassemblers, 1);
    m.apply_snapshot(&Vec::new(), T0 + 30_001);
    assert_eq!(m.stats().reassemblers, 0);
    let flows = m.get_connections();
    assert_eq!(flows.len(), 1);
    assert_eq!(flows[0].application_display(), "QUIC");
}

#[test]
fn inspection_result_survives_the_ticks() {
    let mut m = NetworkMonitor::new(None, false, T0);
    let mut p = tcp(local(), remote(), true, 0x18, 100);
    p.dpi_result = Some(DpiResult { application: ApplicationProtocol::Ssh });
    m.process_packet(&p, T0);
    for i in 1..5u64 {
        m.process_packet(&tcp(local(), remote(), false, 0x10, 60), T0 + i);
        m.apply_snapshot(&vec![entry(local(), remote(), ConnectionState::Established)], T0 + i);
        let flows = m.get_connections();
        let dpi = flows[0].dpi_info.as_ref().unwrap();
        assert_eq!(dpi.application.to_text(), "SSH");
        assert_eq!(dpi.first_packet_time, T0);
    }
}

#[test]
fn polls_are_a_tenth_of_a_second_apart() {
    assert_eq!(POLL_INTERVAL_MS, 100);
    assert_eq!(MAX_PACKETS_PER_POLL, 100);
    let mut m = NetworkMonitor::new(None, false, T0);
    assert!(m.should_poll(T0));
    let mut frames: Vec<Vec<u8>> = Vec::new();
    for i in 0..150u32 {
        let mut f = vec![0u8; 60];
        f[14] = 0x45;
        f[23] = 17;
        f[26..30].copy_from_slice(&[10, 0, 0, 1]);
        f[30..34].copy_from_slice(&[8, 8, 8, 8]);
        f[34] = (i >> 8) as u8;
        f[35] = (i & 0xff) as u8;
        f[37] = 53;
        frames.push(f);
    }
    frames[3] = vec![0u8; 10];
    m.process_packets(&frames, T0);
    assert_eq!(
        m.stats(),
        MonitorStats { tracked_flows: 99, reassemblers: 0, dropped_packets_since_last_tick: 1 }
    );
    assert!(!m.should_poll(T0 + 99));
    m.process_packets(&frames, T0 + 99);
    assert_eq!(m.stats().tracked_flows, 99);
    assert_eq!(m.get_connections()[0].packets_sent, 1);
    assert!(m.should_poll(T0 + 100));
    m.process_packets(&frames, T0 + 100);
    assert_eq!(m.get_connections()[0].packets_sent, 2);
    assert_eq!(m.stats().dropped_packets_since_last_tick, 2);
    m.apply_snapshot(&Vec::new(), T0 + 101);
    assert_eq!(m.stats().dropped_packets_since_last_tick, 0);
    assert_eq!(m.stats().tracked_flows, 99);
}

#[test]
fn loopback_flows_are_hidden_on_request() {
    let lo1 = SocketAddress::new(IpAddress::V4(127, 0, 0, 1), 5000);
    let lo2 = SocketAddress::new(IpAddress::V4(127, 0, 0, 1), 6000);
    let mut shown = NetworkMonitor::new(Some("eth0".to_string()), false, T0);
    let mut hidden = NetworkMonitor::new(None, true, T0);
    for m in [&mut shown, &mut hidden] {
        m.process_packet(&udp(lo1, lo2, true, 10), T0);
        m.process_packet(&udp(lo1, remote(), true, 10), T0);
    }
    assert_eq!(shown.get_connections().len(), 2);
    assert_eq!(hidden.get_connections().len(), 1);
    assert_eq!(hidden.get_connections()[0].remote_addr, remote());
    assert_eq!(hidden.stats().tracked_flows, 2);
    assert!(hidden.filters_localhost());
    assert_eq!(shown.interface(), &Some("eth0".to_string()));
    assert!(!shown.collects_process_info());
    shown.set_collect_process_info(true);
    assert!(shown.collects_process_info());
}

#[test]
fn socket_is_fused_into_its_flow() {
    let conn = connection_from_entry(&entry(local(), remote(), ConnectionState::SynSent), 9);
    assert_eq!(conn.protocol_state, ProtocolState::Tcp(TcpState::SynSent));
    let mut e = entry(local(), remote(), ConnectionState::Established);
    e.pid = Some(3);
    e.process_name = Some("nc".to_string());
    let fused = fuse_entry(conn, &e);
    assert_eq!(fused.protocol_state, ProtocolState::Tcp(TcpState::Established));
    assert_eq!(fused.pid, Some(3));
    assert_eq!(fused.process_name, Some("nc".to_string()));
    let mut other = entry(local(), remote(), ConnectionState::Unknown);
    other.pid = Some(4);
    other.process_name = Some("other".to_string());
    let again = fuse_entry(fused, &other);
    assert_eq!(again.pid, Some(3));
    assert_eq!(again.process_name, Some("nc".to_string()));
    assert_eq!(again.protocol_state, ProtocolState::Tcp(TcpState::Established));
    assert_eq!(again.created_at, 9);
}
