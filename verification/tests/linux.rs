use flowtrack::addr::{parse_addr, IpAddress, SocketAddress};
use flowtrack::network::linux::{
    fd_names_socket, get_connections_from_netstat, get_connections_from_pcap,
    get_connections_from_ss,
    get_platform_connections, get_process_name_by_pid, local_ip_address, parse_netstat_line,
    parse_ss_line, pid_of_dir_name, process_with_name, read_name, read_pid, to_ascii_lower,
    try_netstat_command, try_proc_parsing, try_ss_command, InterfaceInfo,
};
use flowtrack::network::ss_line::format_ss_line;
use flowtrack::network::{Connection, ConnectionState, Process, Protocol};

fn chars(s: &str) -> Vec<char> {
    s.chars().collect()
}

fn v4(a: u8, b: u8, c: u8, d: u8, port: u16) -> SocketAddress {
    SocketAddress::new(IpAddress::V4(a, b, c, d), port)
}

fn same_entry(a: &Connection, b: &Connection) -> bool {
    a.protocol == b.protocol
        && a.local_addr == b.local_addr
        && a.remote_addr == b.remote_addr
        && a.state == b.state
        && a.pid == b.pid
        && a.process_name == b.process_name
}

#[test]
fn ss_line_is_read() {
    let line = chars("tcp ESTAB 0 0 10.0.0.1:1234 10.0.0.2:80 users:((\"myproc\",pid=789,fd=5))");
    let c = parse_ss_line(&line, 77).unwrap();
    assert_eq!(c.protocol, Protocol::TCP);
    assert_eq!(c.state, ConnectionState::Established);
    assert_eq!(c.local_addr, v4(10, 0, 0, 1, 1234));
    assert_eq!(c.remote_addr, v4(10, 0, 0, 2, 80));
    assert_eq!(c.pid, Some(789));
    assert_eq!(c.process_name, Some("myproc".to_string()));
    assert_eq!(c.created_at, 77);
    assert_eq!(c.last_activity, 77);
    assert_eq!(c.bytes_sent + c.bytes_received + c.packets_sent + c.packets_received, 0);
}

#[test]
fn ss_states_follow_the_mapping() {
    let cases = [
        ("ESTAB", ConnectionState::Established),
        ("LISTEN", ConnectionState::Listen),
        ("TIME-WAIT", ConnectionState::TimeWait),
        ("CLOSE-WAIT", ConnectionState::CloseWait),
        ("SYN-SENT", ConnectionState::SynSent),
        ("SYN-RECV", ConnectionState::SynReceived),
        ("FIN-WAIT-1", ConnectionState::FinWait1),
        ("FIN-WAIT-2", ConnectionState::FinWait2),
        ("LAST-ACK", ConnectionState::LastAck),
        ("CLOSING", ConnectionState::Closing),
        ("UNCONN", ConnectionState::Unknown),
        ("whatever", ConnectionState::Unknown),
    ];
    for (token, state) in cases {
        let line = chars(&format!("tcp6 {} 0 0 1.2.3.4:5 6.7.8.9:10", token));
        assert_eq!(parse_ss_line(&line, 0).unwrap().state, state);
    }
    let udp = parse_ss_line(&chars("udp UNCONN 0 0 1.2.3.4:5 6.7.8.9:10"), 0).unwrap();
    assert_eq!(udp.protocol, Protocol::UDP);
    assert_eq!(udp.state, ConnectionState::Established);
    let udp6 = parse_ss_line(&chars("udp6 ESTAB 0 0 [::1]:5 [2001:db8::2]:10"), 0).unwrap();
    assert_eq!(udp6.protocol, Protocol::UDP);
    assert_eq!(udp6.local_addr, SocketAddress::new(IpAddress::V6(1), 5));
}

#[test]
fn ss_lines_that_list_nothing() {
    assert!(parse_ss_line(&chars(""), 0).is_none());
    assert!(parse_ss_line(&chars("tcp ESTAB 0 0 1.2.3.4:5"), 0).is_none());
    assert!(parse_ss_line(&chars("raw ESTAB 0 0 1.2.3.4:5 6.7.8.9:10"), 0).is_none());
    assert!(parse_ss_line(&chars("TCP ESTAB 0 0 1.2.3.4:5 6.7.8.9:10"), 0).is_none());
    assert!(parse_ss_line(&chars("tcp ESTAB 0 0 1.2.3.4:5 6.7.8.999:10"), 0).is_none());
    assert!(parse_ss_line(&chars("tcp ESTAB 0 0 1.2.3.4:5 host:http"), 0).is_none());
    assert!(parse_ss_line(&chars("Netid State Recv-Q Send-Q Local Peer Process"), 0).is_none());
}

#[test]
fn wildcard_endpoints_are_read() {
    let c = parse_ss_line(&chars("udp UNCONN 0 0 *:68 *:* users:((\"dhclient\",pid=123,fd=3))"), 0)
        .unwrap();
    assert_eq!(c.local_addr, v4(0, 0, 0, 0, 68));
    assert_eq!(c.remote_addr, v4(0, 0, 0, 0, 0));
    assert_eq!(c.pid, Some(123));
    assert_eq!(c.process_name, Some("dhclient".to_string()));
    let d = parse_ss_line(&chars("udp UNCONN 0 0 0.0.0.0:5353 0.0.0.0:*"), 0).unwrap();
    assert_eq!(d.local_addr, v4(0, 0, 0, 0, 5353));
    assert_eq!(d.remote_addr, v4(0, 0, 0, 0, 0));
    assert!(d.pid.is_none());
}

#[test]
fn process_field_without_a_number_names_no_process() {
    let c = parse_ss_line(&chars("tcp ESTAB 0 0 1.2.3.4:5 6.7.8.9:10 users:((\"x\",fd=5))"), 0)
        .unwrap();
    assert!(c.pid.is_none());
    assert!(c.process_name.is_none());
    let d = parse_ss_line(&chars("tcp ESTAB 0 0 1.2.3.4:5 6.7.8.9:10 pid=12,fd=5"), 0).unwrap();
    assert_eq!(d.pid, Some(12));
    assert!(d.process_name.is_none());
    let e = parse_ss_line(&chars("tcp ESTAB 0 0 1.2.3.4:5 6.7.8.9:10 pid=4294967296,"), 0).unwrap();
    assert!(e.pid.is_none());
    assert_eq!(read_pid(&chars("a,pid=+7,b")), Some(7));
    assert_eq!(read_pid(&chars("pid=7")), None);
    assert_eq!(read_pid(&chars("pid=,")), None);
    assert_eq!(read_name(&chars("users:((\"a b\",pid=1))")), Some(chars("a b")));
    assert_eq!(read_name(&chars("users:((\"open")), None);
}

#[test]
fn ss_output_is_read_behind_its_heading() {
    let text = "Netid State Recv-Q Send-Q Local Address:Port Peer Address:Port Process\n\
                tcp ESTAB 0 0 10.0.0.1:1234 10.0.0.2:80 users:((\"a\",pid=1,fd=5))\r\n\
                garbage\n\
                udp UNCONN 0 0 10.0.0.1:53 10.0.0.9:5000\n";
    let mut out = vec![Connection::new(
        Protocol::TCP,
        v4(1, 1, 1, 1, 1),
        v4(2, 2, 2, 2, 2),
        ConnectionState::Listen,
        0,
    )];
    get_connections_from_ss(text, &mut out, 5);
    assert_eq!(out.len(), 3);
    assert_eq!(out[0].local_addr, v4(1, 1, 1, 1, 1));
    assert_eq!(out[1].pid, Some(1));
    assert_eq!(out[1].remote_addr, v4(10, 0, 0, 2, 80));
    assert_eq!(out[2].protocol, Protocol::UDP);
    assert_eq!(out[2].created_at, 5);
    let mut none = Vec::new();
    get_connections_from_ss("tcp ESTAB 0 0 10.0.0.1:1234 10.0.0.2:80", &mut none, 5);
    assert!(none.is_empty());
    get_connections_from_ss("", &mut none, 5);
    assert!(none.is_empty());
}

#[test]
fn formatted_entry_reads_back_the_same() {
    let mut entries = Vec::new();
    let mut a = Connection::new(
        Protocol::TCP,
        v4(10, 0, 0, 5, 54000),
        v4(8, 8, 8, 8, 80),
        ConnectionState::Established,
        9,
    );
    a.pid = Some(4242);
    a.process_name = Some("curl".to_string());
    assert_eq!(
        format_ss_line(&a),
        "tcp ESTAB 0 0 10.0.0.5:54000 8.8.8.8:80 users:((\"curl\",pid=4242,fd=0))"
    );
    entries.push(a);
    let mut b = Connection::new(
        Protocol::UDP,
        v4(0, 0, 0, 0, 68),
        v4(255, 255, 255, 255, 65535),
        ConnectionState::Established,
        9,
    );
    b.pid = Some(0);
    assert_eq!(format_ss_line(&b), "udp ESTAB 0 0 0.0.0.0:68 255.255.255.255:65535 pid=0,fd=0");
    entries.push(b);
    let c = Connection::new(
        Protocol::TCP,
        SocketAddress::new(IpAddress::V6(1), 631),
        SocketAddress::new(IpAddress::V6(0x2001_0db8_0000_0000_0000_0000_0000_0002), 0),
        ConnectionState::TimeWait,
        9,
    );
    assert_eq!(format_ss_line(&c), "tcp TIME-WAIT 0 0 [::1]:631 [2001:db8::2]:0");
    entries.push(c);
    let states = [
        ConnectionState::Established,
        ConnectionState::SynSent,
        ConnectionState::SynReceived,
        ConnectionState::FinWait1,
        ConnectionState::FinWait2,
        ConnectionState::TimeWait,
        ConnectionState::CloseWait,
        ConnectionState::LastAck,
        ConnectionState::Listen,
        ConnectionState::Closing,
        ConnectionState::Unknown,
    ];
    for (i, state) in states.iter().enumerate() {
        for protocol in [Protocol::TCP, Protocol::UDP] {
            let mut e = Connection::new(
                protocol,
                SocketAddress::new(IpAddress::V6(0xffff_0a00_0000 + i as u128), 443),
                v4(100 + i as u8, 0, 20, 3, i as u16),
                *state,
                9,
            );
            e.pid = Some(u32::MAX - i as u32);
            e.process_name = Some(format!("n(a)me,{}", i));
            e.bytes_sent = 5;
            entries.push(e);
        }
    }
    for entry in entries.iter() {
        let line = format_ss_line(entry);
        let read = parse_ss_line(&chars(&line), 9).unwrap();
        assert!(same_entry(entry, &read), "{}", line);
        assert_eq!(read.created_at, 9);
        assert_eq!(read.bytes_sent, 0);
        assert_eq!(format_ss_line(&read), line);
    }
    let reset = Connection::new(
        Protocol::TCP,
        v4(1, 1, 1, 1, 1),
        v4(2, 2, 2, 2, 2),
        ConnectionState::Reset,
        9,
    );
    assert_eq!(format_ss_line(&reset), "tcp RESET 0 0 1.1.1.1:1 2.2.2.2:2");
    let read = parse_ss_line(&chars(&format_ss_line(&reset)), 9).unwrap();
    assert_eq!(read.state, ConnectionState::Unknown);
}

#[test]
fn netstat_line_is_read() {
    let line = chars("TCP 10.0.0.1:1234 10.0.0.2:80 x y ESTABLISHED 789/myproc");
    let c = parse_netstat_line(&line, 3).unwrap();
    assert_eq!(c.protocol, Protocol::TCP);
    assert_eq!(c.local_addr, v4(10, 0, 0, 1, 1234));
    assert_eq!(c.remote_addr, v4(10, 0, 0, 2, 80));
    assert_eq!(c.state, ConnectionState::Established);
    assert_eq!(c.pid, Some(789));
    assert_eq!(c.process_name, Some("myproc".to_string()));
    assert_eq!(c.created_at, 3);
}

#[test]
fn netstat_line_with_queue_lengths_gives_loopback_ports() {
    let line = chars("tcp 0 36 192.168.1.5:22 192.168.1.9:51000 ESTABLISHED 1234/sshd");
    let c = parse_netstat_line(&line, 0).unwrap();
    assert_eq!(c.local_addr, v4(127, 0, 0, 1, 0));
    assert_eq!(c.remote_addr, v4(127, 0, 0, 1, 36));
    assert_eq!(c.state, ConnectionState::Established);
    assert_eq!(c.pid, Some(1234));
    assert_eq!(c.process_name, Some("sshd".to_string()));
}

#[test]
fn netstat_states_and_processes() {
    let cases = [
        ("ESTABLISHED", ConnectionState::Established),
        ("LISTENING", ConnectionState::Listen),
        ("LISTEN", ConnectionState::Listen),
        ("TIME_WAIT", ConnectionState::TimeWait),
        ("CLOSE_WAIT", ConnectionState::CloseWait),
        ("SYN_SENT", ConnectionState::SynSent),
        ("SYN_RECEIVED", ConnectionState::SynReceived),
        ("SYN_RECV", ConnectionState::SynReceived),
        ("FIN_WAIT_1", ConnectionState::FinWait1),
        ("FIN_WAIT_2", ConnectionState::FinWait2),
        ("LAST_ACK", ConnectionState::LastAck),
        ("CLOSING", ConnectionState::Closing),
        ("ESTAB", ConnectionState::Unknown),
    ];
    for (token, state) in cases {
        let line = chars(&format!("udp6 1.2.3.4:5 6.7.8.9:10 a b {} -", token));
        let c = parse_netstat_line(&line, 0).unwrap();
        assert_eq!(c.protocol, Protocol::UDP);
        assert_eq!(c.state, state);
        assert!(c.pid.is_none());
    }
    let short = parse_netstat_line(&chars("Udp 1.2.3.4:5 6.7.8.9:10 a b"), 0).unwrap();
    assert_eq!(short.state, ConnectionState::Unknown);
    let dash = parse_netstat_line(&chars("tcp 1.2.3.4:5 6.7.8.9:10 a b LISTEN 12/-"), 0).unwrap();
    assert_eq!(dash.pid, Some(12));
    assert!(dash.process_name.is_none());
    let bare = parse_netstat_line(&chars("tcp 1.2.3.4:5 6.7.8.9:10 a b LISTEN 12"), 0).unwrap();
    assert_eq!(bare.pid, Some(12));
    assert!(bare.process_name.is_none());
    let path = parse_netstat_line(&chars("tcp 1.2.3.4:5 6.7.8.9:10 a b LISTEN 12/usr/bin"), 0)
        .unwrap();
    assert_eq!(path.process_name, Some("usr".to_string()));
    let none = parse_netstat_line(&chars("tcp 1.2.3.4:5 6.7.8.9:10 a b LISTEN x/y"), 0).unwrap();
    assert!(none.pid.is_none());
    assert!(none.process_name.is_none());
    assert!(parse_netstat_line(&chars("tcp 1.2.3.4:5 6.7.8.9:10 a"), 0).is_none());
    assert!(parse_netstat_line(&chars("unix 1.2.3.4:5 6.7.8.9:10 a b"), 0).is_none());
    assert_eq!(to_ascii_lower(&chars("TcP6-Ä")), chars("tcp6-Ä"));
}

#[test]
fn both_commands_list_together() {
    let ss = "heading\ntcp ESTAB 0 0 10.0.0.1:1 10.0.0.2:2\n";
    let netstat = "one\ntwo\nudp 10.0.0.3:3 10.0.0.4:4 a b\nudp 10.0.0.5:5 10.0.0.6:6 a b\n";
    let mut all = Vec::new();
    get_platform_connections(Some(ss), Some(netstat), Some(IpAddress::V4(10, 0, 0, 9)), &mut all, 1);
    assert_eq!(all.len(), 3);
    assert_eq!(all[0].local_addr, v4(10, 0, 0, 1, 1));
    assert_eq!(all[1].local_addr, v4(10, 0, 0, 3, 3));
    assert_eq!(all[2].local_addr, v4(10, 0, 0, 5, 5));
    let mut only = Vec::new();
    get_platform_connections(None, Some(netstat), None, &mut only, 1);
    assert_eq!(only.len(), 2);
    let mut nothing = Vec::new();
    get_platform_connections(None, None, None, &mut nothing, 1);
    assert!(nothing.is_empty());
    get_platform_connections(Some("heading\n"), Some("one\ntwo\nbad line"), None, &mut nothing, 1);
    assert!(nothing.is_empty());
    let mut heads = Vec::new();
    get_connections_from_netstat("one\ntwo", &mut heads, 1);
    assert!(heads.is_empty());
}

#[test]
fn examples_stand_in_where_nothing_is_listed() {
    let ip = IpAddress::V4(192, 168, 1, 100);
    let mut found = Vec::new();
    get_platform_connections(Some("heading\n"), None, Some(ip), &mut found, 7);
    let listed: Vec<(Protocol, u16, u16)> =
        found.iter().map(|c| (c.protocol, c.local_addr.port, c.remote_addr.port)).collect();
    assert_eq!(
        listed,
        vec![
            (Protocol::TCP, 10080, 80),
            (Protocol::TCP, 10443, 443),
            (Protocol::TCP, 10022, 22),
            (Protocol::TCP, 10053, 53),
            (Protocol::UDP, 10053, 53),
        ]
    );
    for c in found.iter() {
        assert_eq!(c.local_addr.ip, ip);
        assert_eq!(c.remote_addr.ip, IpAddress::V4(8, 8, 8, 8));
        assert_eq!(c.state, ConnectionState::Established);
        assert_eq!(c.created_at, 7);
        assert!(c.pid.is_none());
    }
    get_platform_connections(None, None, Some(ip), &mut found, 8);
    assert_eq!(found.len(), 5);
    let mut more = Vec::new();
    get_connections_from_pcap(None, &mut more, 9);
    assert!(more.is_empty());
    get_connections_from_pcap(Some(IpAddress::V6(1)), &mut more, 9);
    get_connections_from_pcap(Some(ip), &mut more, 9);
    assert_eq!(more.len(), 10);
    assert_eq!(more[0].local_addr, SocketAddress::new(IpAddress::V6(1), 10080));
}

fn socket(local_port: u16, remote_port: u16) -> Connection {
    Connection::new(
        Protocol::TCP,
        v4(10, 0, 0, 5, local_port),
        v4(8, 8, 8, 8, remote_port),
        ConnectionState::Established,
        0,
    )
}

fn is_process(p: Option<Process>, pid: u32, name: &str) -> bool {
    match p {
        Some(p) => {
            p.pid == pid
                && p.name == name
                && p.command_line.is_none()
                && p.user.is_none()
                && p.memory_usage.is_none()
        }
        None => false,
    }
}

#[test]
fn owner_is_found_in_the_output_of_ss() {
    let text = "State Recv-Q Send-Q Local Peer Process\n\
                ESTAB 0 0 10.0.0.5:54001 8.8.8.8:80 users:((\"wget\",pid=11,fd=3))\n\
                ESTAB 0 0 10.0.0.5:54000 8.8.8.8:80 users:((\"curl\",pid=4242,fd=5))\n\
                ESTAB 0 0 10.0.0.5:54000 8.8.8.8:80 users:((\"late\",pid=5,fd=5))\n";
    assert!(is_process(try_ss_command(text, &socket(54000, 80)), 4242, "curl"));
    assert!(is_process(try_ss_command(text, &socket(54001, 80)), 11, "wget"));
    assert!(try_ss_command(text, &socket(54002, 80)).is_none());
    assert!(try_ss_command("", &socket(54000, 80)).is_none());
    let no_users = "h\nESTAB 0 0 10.0.0.5:54000 8.8.8.8:80 pid=9,fd=5\n";
    assert!(is_process(try_ss_command(no_users, &socket(54000, 80)), 9, "process-9"));
    let no_comma = "h\nESTAB 0 0 10.0.0.5:54000 8.8.8.8:80 pid=9,users:(x\n";
    assert!(is_process(try_ss_command(no_comma, &socket(54000, 80)), 9, "process-9"));
    let no_pid = "h\nESTAB 0 0 10.0.0.5:54000 8.8.8.8:80 users:((\"curl\",fd=5))\n\
                  ESTAB 0 0 10.0.0.5:54000 8.8.8.8:80 users:((\"curl\",pid=1,fd=5))\n";
    assert!(try_ss_command(no_pid, &socket(54000, 80)).is_none());
    let heading = "ESTAB 0 0 10.0.0.5:54000 8.8.8.8:80 users:((\"curl\",pid=1,fd=5))\n";
    assert!(try_ss_command(heading, &socket(54000, 80)).is_none());
}

#[test]
fn owner_is_found_in_the_output_of_netstat() {
    let text = "Active Internet connections\n\
                Proto Local Foreign a b State PID\n\
                udp 10.0.0.5:54000 8.8.8.8:80 a b ESTABLISHED 7\n\
                tcp 10.0.0.5:54001 8.8.8.8:80 a b ESTABLISHED 8\n\
                TCP6 10.0.0.5:54000 8.8.8.8:80 a b ESTABLISHED 4242\n\
                tcp 10.0.0.5:54000 8.8.8.8:80 a b ESTABLISHED 9\n";
    assert_eq!(try_netstat_command(text, &socket(54000, 80)), Some(4242));
    assert_eq!(try_netstat_command(text, &socket(54001, 80)), Some(8));
    assert_eq!(try_netstat_command(text, &socket(54002, 80)), None);
    let with_name = "a\nb\ntcp 10.0.0.5:54000 8.8.8.8:80 a b ESTABLISHED 4242/curl\n\
                     tcp 10.0.0.5:54000 8.8.8.8:80 a b ESTABLISHED 9\n";
    assert_eq!(try_netstat_command(with_name, &socket(54000, 80)), None);
    let dash = "a\nb\ntcp 10.0.0.5:54000 8.8.8.8:80 a b ESTABLISHED -\n";
    assert_eq!(try_netstat_command(dash, &socket(54000, 80)), None);
    let by_port = "a\nb\ntcp *:54000 0.0.0.0:80 a b LISTEN 31\n";
    assert_eq!(try_netstat_command(by_port, &socket(54000, 80)), Some(31));
    assert!(is_process(Some(process_with_name(31, None)), 31, "process-31"));
    assert!(is_process(Some(process_with_name(31, Some("nginx".to_string()))), 31, "nginx"));
    assert!(is_process(Some(process_with_name(0, None)), 0, "process-0"));
}

#[test]
fn inodes_are_found_in_a_socket_file() {
    let text = "  sl  local_address rem_address   st tx_queue rx_queue tr tm->when retrnsmt   uid  timeout inode\n\
                0: A000005:D2F0 08080808:0050 01 00000000:00000000 00:00000000 00000000  1000        0 31337 1\n\
                1: 00000000:D2F0 00000000:0000 0A 00000000:00000000 00:00000000 00000000  1000        0 4711 1\n\
                2: A000005:D2F1 08080808:0050 01 00000000:00000000 00:00000000 00000000  1000        0 5 1\n\
                3: 0A000005:D2F0 08080808:0050 01 00000000:00000000 00:00000000 00000000  1000        0 6 1\n\
                4: A000005:D2F0 08080808:0050 01 00000000:00000000\n";
    let found = try_proc_parsing(text, &socket(54000, 80));
    assert_eq!(found, vec!["31337".to_string(), "4711".to_string()]);
    let v6 = Connection::new(
        Protocol::TCP,
        SocketAddress::new(IpAddress::V6(1), 54000),
        v4(8, 8, 8, 8, 80),
        ConnectionState::Established,
        0,
    );
    assert!(try_proc_parsing(text, &v6).is_empty());
    assert!(try_proc_parsing("", &socket(54000, 80)).is_empty());
    let high = Connection::new(
        Protocol::UDP,
        v4(192, 168, 1, 100, 443),
        v4(8, 8, 8, 8, 80),
        ConnectionState::Established,
        0,
    );
    let line = "h\n0: C0A80164:1BB 0:0 07 0:0 0:0 0 0 0 99 2\n";
    assert_eq!(try_proc_parsing(line, &high), vec!["99".to_string()]);
}

#[test]
fn open_file_links_and_directory_names() {
    assert!(fd_names_socket("socket:[31337]", "31337"));
    assert!(fd_names_socket("x socket:[31337] y", "31337"));
    assert!(!fd_names_socket("socket:[313370]", "31337"));
    assert!(!fd_names_socket("socket:[3133]", "31337"));
    assert!(!fd_names_socket("/dev/null", "31337"));
    assert_eq!(pid_of_dir_name("4242"), Some(4242));
    assert_eq!(pid_of_dir_name("4294967295"), Some(4294967295));
    assert_eq!(pid_of_dir_name("4294967296"), None);
    assert_eq!(pid_of_dir_name("self"), None);
    assert_eq!(pid_of_dir_name(""), None);
    assert_eq!(get_process_name_by_pid("curl\n"), "curl");
    assert_eq!(get_process_name_by_pid("  my proc \t\r\n"), "my proc");
    assert_eq!(get_process_name_by_pid("\n"), "");
}

#[test]
fn host_address_is_the_first_of_a_running_interface() {
    let lo = InterfaceInfo { is_up: true, is_loopback: true, ips: vec![IpAddress::V4(127, 0, 0, 1)] };
    let down = InterfaceInfo { is_up: false, is_loopback: false, ips: vec![IpAddress::V4(10, 0, 0, 1)] };
    let v6_only = InterfaceInfo { is_up: true, is_loopback: false, ips: vec![IpAddress::V6(77)] };
    let eth = InterfaceInfo {
        is_up: true,
        is_loopback: false,
        ips: vec![IpAddress::V6(5), IpAddress::V4(192, 168, 7, 7), IpAddress::V4(10, 1, 1, 1)],
    };
    let wifi = InterfaceInfo { is_up: true, is_loopback: false, ips: vec![IpAddress::V4(172, 16, 0, 9)] };
    assert_eq!(
        local_ip_address(&vec![lo.clone(), down.clone(), v6_only.clone(), eth, wifi]),
        Some(IpAddress::V4(192, 168, 7, 7))
    );
    assert_eq!(local_ip_address(&vec![lo, down, v6_only]), Some(IpAddress::V4(192, 168, 1, 100)));
    assert_eq!(local_ip_address(&Vec::new()), Some(IpAddress::V4(192, 168, 1, 100)));
}

#[test]
fn addresses_of_a_socket_table_are_read() {
    assert_eq!(parse_addr(&chars("10.0.0.5:54000")), Some(v4(10, 0, 0, 5, 54000)));
    assert_eq!(parse_addr(&chars("  10.0.0.5:54000\t")), Some(v4(10, 0, 0, 5, 54000)));
    assert_eq!(parse_addr(&chars("8080")), Some(v4(127, 0, 0, 1, 8080)));
    assert_eq!(parse_addr(&chars("+80")), Some(v4(127, 0, 0, 1, 80)));
    assert_eq!(parse_addr(&chars("65536")), None);
    assert_eq!(parse_addr(&chars("*:*")), Some(v4(0, 0, 0, 0, 0)));
    assert_eq!(parse_addr(&chars("*:22")), Some(v4(0, 0, 0, 0, 22)));
    assert_eq!(parse_addr(&chars("1.2.3.4:*")), Some(v4(1, 2, 3, 4, 0)));
    assert_eq!(parse_addr(&chars("1.2.3.4:65535")), Some(v4(1, 2, 3, 4, 65535)));
    assert_eq!(parse_addr(&chars("1.2.3.4:0080")), Some(v4(1, 2, 3, 4, 80)));
    for bad in [
        "", ":", "1.2.3.4", "1.2.3.4:", "1.2.3.4:65536", "1.2.3.4:+80", "1.2.3.4:-1", "1.2.3:80",
        "1.2.3.4.5:80", "1.2.3.256:80", "01.2.3.4:80", "1.2.3.04:80", "1..3.4:80", "a.b.c.d:80",
        "1.2.3.4 :80", "localhost:80", ":::80", "::1:80", "[::1]", "[::1]:", "[1.2.3.4]:80",
        "[:::1]:80", "[1::2::3]:80", "[12345::]:80", "[1:2:3:4:5:6:7]:80",
        "[1:2:3:4:5:6:7:8:9]:80", "[1:2:3:4:5:6:7:8::]:80", "[::1.2.3]:80", "[g::]:80",
        "[1:2:3:4:5:6:7:1.2.3.4]:80",
    ] {
        assert_eq!(parse_addr(&chars(bad)), None, "{}", bad);
    }
}

#[test]
fn ipv6_addresses_are_read() {
    let cases: [(&str, u128); 12] = [
        ("[::]:1", 0),
        ("[::1]:1", 1),
        ("[1::]:1", 0x0001_0000_0000_0000_0000_0000_0000_0000),
        ("[2001:db8::2]:1", 0x2001_0db8_0000_0000_0000_0000_0000_0002),
        ("[2001:DB8:0:0:0:0:0:2]:1", 0x2001_0db8_0000_0000_0000_0000_0000_0002),
        ("[1:2:3:4:5:6:7:8]:1", 0x0001_0002_0003_0004_0005_0006_0007_0008),
        ("[1:2:3:4:5:6:7::]:1", 0x0001_0002_0003_0004_0005_0006_0007_0000),
        ("[::2:3:4:5:6:7:8]:1", 0x0000_0002_0003_0004_0005_0006_0007_0008),
        ("[ffff:ffff:ffff:ffff:ffff:ffff:ffff:ffff]:1", u128::MAX),
        ("[::ffff:10.0.0.5]:1", 0x0000_0000_0000_0000_0000_ffff_0a00_0005),
        ("[1:2:3:4:5:6:1.2.3.4]:1", 0x0001_0002_0003_0004_0005_0006_0102_0304),
        ("[fe80::0abc:00:1]:1", 0xfe80_0000_0000_0000_0000_0abc_0000_0001),
    ];
    for (text, bits) in cases {
        assert_eq!(
            parse_addr(&chars(text)),
            Some(SocketAddress::new(IpAddress::V6(bits), 1)),
            "{}",
            text
        );
    }
}
