use flowtrack::addr::{IpAddress, SocketAddress};
use flowtrack::network::dpi::DpiResult;
use flowtrack::network::merge::{
    connection_matches_packet, connections_match, create_connection_from_packet,
    enrich_with_process_info, enrich_with_service_name, merge_connections, merge_dpi_info,
    merge_packet_into_connection, saturating_sum, update_tcp_state,
};
use flowtrack::network::parser::{ParsedPacket, TcpFlags};
use flowtrack::network::types::{
    ApplicationProtocol, Connection, DnsInfo, DpiInfo, Protocol, ProtocolState, TcpState,
};

const NOW: u64 = 1_700_000_000_000;

fn create_test_connection() -> Connection {
    Connection::new(
        Protocol::TCP,
        SocketAddress::new(IpAddress::V4(192, 168, 1, 100), 12345),
        SocketAddress::new(IpAddress::V4(10, 0, 0, 1), 80),
        ProtocolState::Tcp(TcpState::Established),
        NOW,
    )
}

fn create_test_packet(is_outgoing: bool) -> ParsedPacket {
    ParsedPacket {
        connection_key: "test".to_string(),
        protocol: Protocol::TCP,
        local_addr: SocketAddress::new(IpAddress::V4(192, 168, 1, 100), 12345),
        remote_addr: SocketAddress::new(IpAddress::V4(10, 0, 0, 1), 80),
        protocol_state: ProtocolState::Tcp(TcpState::Unknown),
        tcp_flags: Some(TcpFlags {
            syn: false,
            ack: false,
            fin: true,
            rst: false,
            psh: false,
            urg: false,
        }),
        is_outgoing,
        packet_len: 100,
        dpi_result: None,
    }
}

fn flags(syn: bool, ack: bool, fin: bool, rst: bool) -> TcpFlags {
    TcpFlags { syn, ack, fin, rst, psh: false, urg: false }
}

fn dns_result(name: &str) -> DpiResult {
    DpiResult {
        application: ApplicationProtocol::Dns(DnsInfo {
            query_name: Some(name.to_string()),
            query_type: None,
            response_ips: Vec::new(),
            is_response: false,
        }),
    }
}

#[test]
fn test_merge_packet_into_connection() {
    let mut conn = create_test_connection();
    let packet = create_test_packet(true);

    conn = merge_packet_into_connection(conn, &packet, NOW);

    assert_eq!(conn.packets_sent, 1);
    assert_eq!(conn.bytes_sent, 100);
    assert_eq!(conn.packets_received, 0);
}

#[test]
fn test_create_connection_from_packet() {
    let packet = create_test_packet(false);
    let conn = create_connection_from_packet(&packet, NOW);

    assert_eq!(conn.packets_received, 1);
    assert_eq!(conn.bytes_received, 100);
    assert_eq!(conn.packets_sent, 0);
}

#[test]
fn test_enrich_with_process_info() {
    let conn = create_test_connection();
    let enriched = enrich_with_process_info(conn, 1234, "firefox".to_string());

    assert_eq!(enriched.pid, Some(1234));
    assert_eq!(enriched.process_name, Some("firefox".to_string()));
}

#[test]
fn test_merge_connections() {
    let mut primary = create_test_connection();
    primary.bytes_sent = 1000;

    let mut secondary = create_test_connection();
    secondary.pid = Some(5678);
    secondary.process_name = Some("chrome".to_string());
    secondary.bytes_sent = 2000;

    let merged = merge_connections(primary, &secondary);

    assert_eq!(merged.pid, Some(5678));
    assert_eq!(merged.process_name, Some("chrome".to_string()));
    assert_eq!(merged.bytes_sent, 2000);
}

#[test]
fn test_connections_match() {
    let conn1 = create_test_connection();
    let conn2 = create_test_connection();

    assert!(connections_match(&conn1, &conn2));

    let mut conn3 = create_test_connection();
    conn3.local_addr = SocketAddress::new(IpAddress::V4(192, 168, 1, 101), 12345);

    assert!(!connections_match(&conn1, &conn3));
}

#[test]
fn merge_sets_the_time_and_follows_the_flags() {
    let conn = create_test_connection();
    let packet = create_test_packet(true);
    let conn = merge_packet_into_connection(conn, &packet, NOW + 5);
    assert_eq!(conn.last_activity, NOW + 5);
    assert_eq!(conn.created_at, NOW);
    assert_eq!(conn.protocol_state, ProtocolState::Tcp(TcpState::FinWait1));
    let conn = merge_packet_into_connection(conn, &create_test_packet(false), NOW + 6);
    assert_eq!(conn.protocol_state, ProtocolState::Tcp(TcpState::Closing));
    assert_eq!(conn.packets_received, 1);
    assert_eq!(conn.bytes_received, 100);
    assert_eq!(conn.packets_sent, 1);
}

#[test]
fn merge_takes_the_state_of_a_packet_without_flags() {
    let mut conn = create_test_connection();
    conn.protocol = Protocol::UDP;
    conn.protocol_state = ProtocolState::Udp;
    let mut packet = create_test_packet(false);
    packet.protocol = Protocol::UDP;
    packet.tcp_flags = None;
    packet.protocol_state = ProtocolState::Udp;
    let conn = merge_packet_into_connection(conn, &packet, NOW);
    assert_eq!(conn.protocol_state, ProtocolState::Udp);
}

#[test]
fn counters_stay_at_the_largest_number() {
    let mut conn = create_test_connection();
    conn.bytes_sent = u64::MAX - 10;
    conn.packets_sent = u64::MAX;
    let conn = merge_packet_into_connection(conn, &create_test_packet(true), NOW);
    assert_eq!(conn.bytes_sent, u64::MAX);
    assert_eq!(conn.packets_sent, u64::MAX);
    assert_eq!(saturating_sum(3, 4), 7);
    assert_eq!(saturating_sum(u64::MAX, 1), u64::MAX);
}

#[test]
fn created_connection_starts_from_the_unknown_state() {
    let mut packet = create_test_packet(true);
    packet.tcp_flags = Some(flags(true, false, false, false));
    let conn = create_connection_from_packet(&packet, NOW);
    assert_eq!(conn.protocol_state, ProtocolState::Tcp(TcpState::SynSent));
    assert_eq!(conn.created_at, NOW);
    assert_eq!(conn.last_activity, NOW);
    assert_eq!(conn.packets_sent, 1);
    assert_eq!(conn.bytes_sent, 100);
    assert_eq!(conn.bytes_received, 0);
    assert!(conn.pid.is_none());
    assert!(conn.dpi_info.is_none());
}

#[test]
fn inspection_result_is_noted_once() {
    let mut packet = create_test_packet(true);
    packet.dpi_result = Some(dns_result("first.example"));
    let conn = create_connection_from_packet(&packet, NOW);
    let dpi: &DpiInfo = conn.dpi_info.as_ref().unwrap();
    assert_eq!(dpi.first_packet_time, NOW);
    assert_eq!(dpi.last_update_time, NOW);
    assert_eq!(dpi.application.to_text(), "DNS (first.example)");

    let mut second = create_test_packet(true);
    second.dpi_result = Some(dns_result("second.example"));
    let conn = merge_packet_into_connection(conn, &second, NOW + 10);
    let dpi = conn.dpi_info.as_ref().unwrap();
    assert_eq!(dpi.application.to_text(), "DNS (first.example)");
    assert_eq!(dpi.first_packet_time, NOW);

    let mut plain = create_test_connection();
    merge_dpi_info(&mut plain, &dns_result("a.example"), 7);
    merge_dpi_info(&mut plain, &dns_result("b.example"), 8);
    let dpi = plain.dpi_info.as_ref().unwrap();
    assert_eq!(dpi.application.to_text(), "DNS (a.example)");
    assert_eq!(dpi.first_packet_time, 7);
}

#[test]
fn merge_connections_keeps_what_the_first_knows() {
    let mut primary = create_test_connection();
    primary.pid = Some(1);
    primary.process_name = Some("one".to_string());
    primary.created_at = 50;
    primary.last_activity = 90;
    primary.packets_received = 9;
    let mut secondary = create_test_connection();
    secondary.pid = Some(2);
    secondary.process_name = Some("two".to_string());
    secondary.service_name = Some("http".to_string());
    secondary.created_at = 40;
    secondary.last_activity = 80;
    secondary.packets_received = 3;
    secondary.dpi_info = Some(DpiInfo {
        application: ApplicationProtocol::Ssh,
        first_packet_time: 1,
        last_update_time: 2,
    });
    let merged = merge_connections(primary, &secondary);
    assert_eq!(merged.pid, Some(1));
    assert_eq!(merged.process_name, Some("one".to_string()));
    assert_eq!(merged.service_name, Some("http".to_string()));
    assert_eq!(merged.created_at, 40);
    assert_eq!(merged.last_activity, 90);
    assert_eq!(merged.packets_received, 9);
    assert_eq!(merged.dpi_info.as_ref().unwrap().application.to_text(), "SSH");
}

#[test]
fn service_name_is_noted() {
    let conn = enrich_with_service_name(create_test_connection(), "https".to_string());
    assert_eq!(conn.service_name, Some("https".to_string()));
    assert_eq!(conn.application_display(), "HTTPS");
}

#[test]
fn packet_matches_its_connection() {
    let conn = create_test_connection();
    assert!(connection_matches_packet(&conn, &create_test_packet(true)));
    let mut other = create_test_packet(true);
    other.remote_addr = SocketAddress::new(IpAddress::V4(10, 0, 0, 1), 81);
    assert!(!connection_matches_packet(&conn, &other));
    let mut udp = create_test_packet(true);
    udp.protocol = Protocol::UDP;
    assert!(!connection_matches_packet(&conn, &udp));
}

#[test]
fn handshake_opens_the_connection() {
    let syn = flags(true, false, false, false);
    let syn_ack = flags(true, true, false, false);
    let ack = flags(false, true, false, false);
    assert_eq!(update_tcp_state(TcpState::Unknown, &syn, true), TcpState::SynSent);
    assert_eq!(update_tcp_state(TcpState::Unknown, &syn, false), TcpState::SynReceived);
    assert_eq!(update_tcp_state(TcpState::Listen, &syn, true), TcpState::SynSent);
    assert_eq!(update_tcp_state(TcpState::Listen, &syn, false), TcpState::SynReceived);
    assert_eq!(update_tcp_state(TcpState::SynSent, &syn_ack, false), TcpState::Established);
    assert_eq!(update_tcp_state(TcpState::SynSent, &syn_ack, true), TcpState::SynSent);
    assert_eq!(update_tcp_state(TcpState::SynReceived, &ack, true), TcpState::Established);
    assert_eq!(update_tcp_state(TcpState::SynReceived, &ack, false), TcpState::SynReceived);
    assert_eq!(update_tcp_state(TcpState::Unknown, &ack, true), TcpState::Established);
    assert_eq!(update_tcp_state(TcpState::Unknown, &ack, false), TcpState::Established);
}

#[test]
fn closing_follows_the_table() {
    let fin = flags(false, false, true, false);
    let fin_ack = flags(false, true, true, false);
    let ack = flags(false, true, false, false);
    assert_eq!(update_tcp_state(TcpState::Established, &fin, true), TcpState::FinWait1);
    assert_eq!(update_tcp_state(TcpState::Established, &fin_ack, false), TcpState::CloseWait);
    assert_eq!(update_tcp_state(TcpState::FinWait1, &ack, false), TcpState::FinWait2);
    assert_eq!(update_tcp_state(TcpState::FinWait1, &fin, false), TcpState::Closing);
    assert_eq!(update_tcp_state(TcpState::FinWait2, &fin, false), TcpState::TimeWait);
    assert_eq!(update_tcp_state(TcpState::CloseWait, &fin, true), TcpState::LastAck);
    assert_eq!(update_tcp_state(TcpState::LastAck, &ack, false), TcpState::Closed);
    assert_eq!(update_tcp_state(TcpState::Closing, &ack, false), TcpState::TimeWait);
    assert_eq!(update_tcp_state(TcpState::FinWait2, &fin, true), TcpState::FinWait2);
    assert_eq!(update_tcp_state(TcpState::TimeWait, &ack, true), TcpState::TimeWait);
    assert_eq!(update_tcp_state(TcpState::Established, &ack, true), TcpState::Established);
}

#[test]
fn reset_closes_from_every_state() {
    let rst = flags(false, false, false, true);
    let rst_ack = flags(false, true, false, true);
    let all = [
        TcpState::Listen,
        TcpState::SynSent,
        TcpState::SynReceived,
        TcpState::Established,
        TcpState::FinWait1,
        TcpState::FinWait2,
        TcpState::CloseWait,
        TcpState::LastAck,
        TcpState::TimeWait,
        TcpState::Closing,
        TcpState::Closed,
        TcpState::Unknown,
    ];
    for state in all {
        assert_eq!(update_tcp_state(state, &rst, true), TcpState::Closed);
        assert_eq!(update_tcp_state(state, &rst_ack, false), TcpState::Closed);
    }
}

#[test]
fn same_segment_twice_from_unknown_changes_nothing_more() {
    for bits in 0u8..16 {
        let f = flags(bits & 1 != 0, bits & 2 != 0, bits & 4 != 0, bits & 8 != 0);
        for outgoing in [true, false] {
            let once = update_tcp_state(TcpState::Unknown, &f, outgoing);
            let twice = update_tcp_state(once, &f, outgoing);
            assert_eq!(once, twice);
        }
    }
}

#[test]
fn outbound_lifecycle_visits_the_states_in_order() {
    let steps = [
        (flags(true, false, false, false), true, TcpState::SynSent),
        (flags(true, true, false, false), false, TcpState::Established),
        (flags(false, true, false, false), true, TcpState::Established),
        (flags(false, false, true, false), true, TcpState::FinWait1),
        (flags(false, true, false, false), false, TcpState::FinWait2),
        (flags(false, false, true, false), false, TcpState::TimeWait),
        (flags(false, true, false, false), true, TcpState::TimeWait),
    ];
    let mut state = TcpState::Unknown;
    for (f, outgoing, expected) in steps {
        state = update_tcp_state(state, &f, outgoing);
        assert_eq!(state, expected);
    }
    assert_eq!(
        update_tcp_state(state, &flags(false, false, false, true), false),
        TcpState::Closed
    );
}
