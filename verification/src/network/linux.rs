//! The socket table of a Linux host, as `ss`, `netstat` and the files of `/proc` write
//! it.

use vstd::prelude::*;
use crate::addr::{addr_of, parse_addr, IpAddress, SocketAddress};
use crate::network::{Connection, ConnectionState, ConnectionView, Process, ProcessView, Protocol};
use crate::text::{
    chars_are, chars_equal, contains, decimal_text, fields, find, find_char, find_in, find_str,
    from_chars, hex_text, lines, matches_at, occurs_at, parse_number, parse_unsigned,
    push_decimal, push_hex, push_str, rfind_char, rfind_in, slice_chars, split, split_at_char,
    split_fields, split_lines, to_chars, trim, trimmed, views,
};

verus! {

/// The protocol that the first field of a line of `ss` names.
pub open spec fn ss_protocol(token: Seq<char>) -> Option<Protocol> {
    if token == "tcp"@ || token == "tcp6"@ {
        Some(Protocol::TCP)
    } else if token == "udp"@ || token == "udp6"@ {
        Some(Protocol::UDP)
    } else {
        None
    }
}

/// The state that `ss` names with `token`. An unconnected UDP socket counts as
/// established; a name that is not known gives `Unknown`.
pub open spec fn ss_state(token: Seq<char>, protocol: Protocol) -> ConnectionState {
    if token == "ESTAB"@ {
        ConnectionState::Established
    } else if token == "LISTEN"@ {
        ConnectionState::Listen
    } else if token == "TIME-WAIT"@ {
        ConnectionState::TimeWait
    } else if token == "CLOSE-WAIT"@ {
        ConnectionState::CloseWait
    } else if token == "SYN-SENT"@ {
        ConnectionState::SynSent
    } else if token == "SYN-RECV"@ {
        ConnectionState::SynReceived
    } else if token == "FIN-WAIT-1"@ {
        ConnectionState::FinWait1
    } else if token == "FIN-WAIT-2"@ {
        ConnectionState::FinWait2
    } else if token == "LAST-ACK"@ {
        ConnectionState::LastAck
    } else if token == "CLOSING"@ {
        ConnectionState::Closing
    } else if token == "UNCONN"@ && protocol == Protocol::UDP {
        ConnectionState::Established
    } else {
        ConnectionState::Unknown
    }
}

fn read_ss_protocol(token: &Vec<char>) -> (r: Option<Protocol>)
    ensures
        r == ss_protocol(token@),
{
    if chars_are(token, "tcp") || chars_are(token, "tcp6") {
        Some(Protocol::TCP)
    } else if chars_are(token, "udp") || chars_are(token, "udp6") {
        Some(Protocol::UDP)
    } else {
        None
    }
}

fn read_ss_state(token: &Vec<char>, protocol: Protocol) -> (r: ConnectionState)
    ensures
        r == ss_state(token@, protocol),
{
    if chars_are(token, "ESTAB") {
        ConnectionState::Established
    } else if chars_are(token, "LISTEN") {
        ConnectionState::Listen
    } else if chars_are(token, "TIME-WAIT") {
        ConnectionState::TimeWait
    } else if chars_are(token, "CLOSE-WAIT") {
        ConnectionState::CloseWait
    } else if chars_are(token, "SYN-SENT") {
        ConnectionState::SynSent
    } else if chars_are(token, "SYN-RECV") {
        ConnectionState::SynReceived
    } else if chars_are(token, "FIN-WAIT-1") {
        ConnectionState::FinWait1
    } else if chars_are(token, "FIN-WAIT-2") {
        ConnectionState::FinWait2
    } else if chars_are(token, "LAST-ACK") {
        ConnectionState::LastAck
    } else if chars_are(token, "CLOSING") {
        ConnectionState::Closing
    } else if chars_are(token, "UNCONN") && protocol == Protocol::UDP {
        ConnectionState::Established
    } else {
        ConnectionState::Unknown
    }
}

/// The number between the first `pid=` of `info` and the comma that follows it.
pub open spec fn pid_in(info: Seq<char>) -> Option<u32> {
    match find(info, "pid="@) {
        Some(at) => {
            let rest = info.subrange(at + "pid="@.len(), info.len() as int);
            match find(rest, seq![',']) {
                Some(end) => match parse_unsigned(rest.subrange(0, end), u32::MAX as nat) {
                    Some(n) => Some(n as u32),
                    None => None,
                },
                None => None,
            }
        },
        None => None,
    }
}

/// Reads the process number out of the process field of `ss`.
pub fn read_pid(info: &Vec<char>) -> (r: Option<u32>)
    ensures
        r == pid_in(info@),
{
    let marker = "pid=";
    match find_str(info, marker) {
        Some(at) => {
            let n = info.len();
            let ghost m = marker@.len();
            assert(at + m <= n);
            let rest = slice_chars(info, at + to_chars(marker).len(), n);
            match find_char(&rest, ',') {
                Some(end) => {
                    let digits = slice_chars(&rest, 0, end);
                    match parse_number(&digits, 0xFFFF_FFFF) {
                        Some(v) => Some(v as u32),
                        None => None,
                    }
                },
                None => None,
            }
        },
        None => None,
    }
}

/// The text that stands before a process name in the process field of `ss`: `users:`,
/// two opening brackets and a quotation mark.
pub open spec fn name_marker() -> Seq<char> {
    "users:"@ + seq!['(', '(', '"']
}

/// The name between the first name marker of `info` and the quotation mark that follows.
pub open spec fn name_in(info: Seq<char>) -> Option<Seq<char>> {
    match find(info, name_marker()) {
        Some(at) => {
            let rest = info.subrange(at + name_marker().len(), info.len() as int);
            match find(rest, seq!['"']) {
                Some(end) => Some(rest.subrange(0, end)),
                None => None,
            }
        },
        None => None,
    }
}

/// Reads the process name out of the process field of `ss`.
pub fn read_name(info: &Vec<char>) -> (r: Option<Vec<char>>)
    ensures
        match r {
            Some(name) => name_in(info@) == Some(name@),
            None => name_in(info@) is None,
        },
{
    let mut marker = to_chars("users:");
    marker.push('(');
    marker.push('(');
    marker.push('"');
    assert(marker@ =~= name_marker());
    match crate::text::find_in(info, &marker) {
        Some(at) => {
            let n = info.len();
            assert(at + marker@.len() <= n);
            let rest = slice_chars(info, at + marker.len(), n);
            match find_char(&rest, '"') {
                Some(end) => Some(slice_chars(&rest, 0, end)),
                None => None,
            }
        },
        None => None,
    }
}

/// The socket that one line of `ss -tupn` lists, read at the time `now`; `None` for a
/// line that lists none: one with fewer than six fields, with another protocol than TCP
/// and UDP, or with an address that cannot be read.
///
/// The fields are the protocol, the state, two queue lengths, the local and the remote
/// address, and the owning process, which may be missing. The process name is read only
/// where a process number is.
pub open spec fn ss_entry(line: Seq<char>, now: u64) -> Option<ConnectionView> {
    let f = fields(line);
    if f.len() < 6 {
        None
    } else {
        match (ss_protocol(f[0]), addr_of(f[4]), addr_of(f[5])) {
            (Some(protocol), Some(local), Some(remote)) => {
                let pid = if f.len() >= 7 {
                    pid_in(f[6])
                } else {
                    None
                };
                Some(
                    ConnectionView {
                        pid,
                        process_name: if pid is Some {
                            name_in(f[6])
                        } else {
                            None
                        },
                        ..ConnectionView::fresh(
                            protocol,
                            local,
                            remote,
                            ss_state(f[1], protocol),
                            now,
                        )
                    },
                )
            },
            _ => None,
        }
    }
}

fn opt_string(name: Option<Vec<char>>) -> (r: Option<String>)
    ensures
        crate::text::opt_text(r) == match name {
            Some(n) => Some(n@),
            None => None,
        },
{
    match name {
        Some(n) => Some(from_chars(&n)),
        None => None,
    }
}

/// Reads one line of `ss -tupn`.
pub fn parse_ss_line(line: &Vec<char>, now: u64) -> (r: Option<Connection>)
    ensures
        match r {
            Some(c) => ss_entry(line@, now) == Some(c@),
            None => ss_entry(line@, now) is None,
        },
{
    let f = split_fields(line);
    if f.len() < 6 {
        return None;
    }
    assert(views(f@)[0] == f@[0]@);
    assert(views(f@)[1] == f@[1]@);
    assert(views(f@)[4] == f@[4]@);
    assert(views(f@)[5] == f@[5]@);
    let protocol = match read_ss_protocol(&f[0]) {
        Some(p) => p,
        None => {
            return None;
        },
    };
    let state = read_ss_state(&f[1], protocol);
    match (parse_addr(&f[4]), parse_addr(&f[5])) {
        (Some(local), Some(remote)) => {
            let mut conn = Connection::new(protocol, local, remote, state, now);
            if f.len() >= 7 {
                assert(views(f@)[6] == f@[6]@);
                match read_pid(&f[6]) {
                    Some(pid) => {
                        conn.pid = Some(pid);
                        conn.process_name = opt_string(read_name(&f[6]));
                    },
                    None => {},
                }
            }
            Some(conn)
        },
        _ => None,
    }
}

/// The lines of a command's output behind the first `n`, which are headings.
pub open spec fn after_headings(ls: Seq<Seq<char>>, n: int) -> Seq<Seq<char>> {
    if ls.len() > n {
        ls.subrange(n, ls.len() as int)
    } else {
        Seq::empty()
    }
}

/// The sockets that the lines of `ss -tupn` list, in their order.
pub open spec fn ss_line_entries(ls: Seq<Seq<char>>, now: u64) -> Seq<ConnectionView>
    decreases ls.len(),
{
    if ls.len() == 0 {
        Seq::empty()
    } else {
        match ss_entry(ls.last(), now) {
            Some(e) => ss_line_entries(ls.drop_last(), now).push(e),
            None => ss_line_entries(ls.drop_last(), now),
        }
    }
}

/// The sockets that the output of `ss -tupn` lists: those of its lines behind the
/// heading.
pub open spec fn ss_entries(text: Seq<char>, now: u64) -> Seq<ConnectionView> {
    ss_line_entries(after_headings(lines(text), 1), now)
}

/// The sockets of `v` as values, in the same order.
pub open spec fn entry_views(v: Seq<Connection>) -> Seq<ConnectionView> {
    Seq::new(v.len(), |i: int| v[i]@)
}

/// Reads the output of `ss -tupn`, made at the time `now`, and adds the sockets that it
/// lists to `connections`.
pub fn get_connections_from_ss(text: &str, connections: &mut Vec<Connection>, now: u64)
    ensures
        entry_views(final(connections)@) == entry_views(old(connections)@) + ss_entries(text@, now),
{
    let chars = to_chars(text);
    let ls = split_lines(&chars);
    let ghost all = views(ls@);
    let ghost body = after_headings(all, 1);
    let ghost start = entry_views(connections@);
    if ls.len() <= 1 {
        assert(entry_views(connections@) =~= start + ss_line_entries(body, now));
        return ;
    }
    let mut i: usize = 1;
    assert(body.subrange(0, 0) =~= Seq::<Seq<char>>::empty());
    assert(entry_views(connections@) =~= start + ss_line_entries(body.subrange(0, 0), now));
    while i < ls.len()
        invariant
            1 <= i <= ls.len(),
            all == views(ls@),
            body == after_headings(all, 1),
            entry_views(connections@) == start + ss_line_entries(body.subrange(0, i - 1), now),
        decreases ls.len() - i,
    {
        assert(body.subrange(0, i as int).drop_last() =~= body.subrange(0, i - 1));
        assert(body.subrange(0, i as int).last() == ls@[i as int]@);
        let ghost before = entry_views(connections@);
        match parse_ss_line(&ls[i], now) {
            Some(c) => {
                let ghost e = c@;
                connections.push(c);
                assert(entry_views(connections@) =~= before.push(e));
                assert(entry_views(connections@) =~= start + ss_line_entries(
                    body.subrange(0, i as int),
                    now,
                ));
            },
            None => {},
        }
        i = i + 1;
    }
    assert(body.subrange(0, ls.len() - 1) =~= body);
}


/// A capital letter of the English alphabet as a small one; any other character as
/// it is.
pub open spec fn ascii_lower_char(c: char) -> char {
    if 'A' <= c <= 'Z' {
        ((c as u8 + 32) as u8) as char
    } else {
        c
    }
}

/// The text with its capital letters of the English alphabet made small.
pub open spec fn ascii_lower(s: Seq<char>) -> Seq<char> {
    Seq::new(s.len(), |i: int| ascii_lower_char(s[i]))
}

/// A copy of the text with its capital letters of the English alphabet made small.
pub fn to_ascii_lower(s: &Vec<char>) -> (r: Vec<char>)
    ensures
        r@ == ascii_lower(s@),
{
    let mut r: Vec<char> = Vec::new();
    let mut i: usize = 0;
    while i < s.len()
        invariant
            i <= s.len(),
            r@.len() == i,
            forall|k: int| 0 <= k < i ==> r@[k] == ascii_lower_char(#[trigger] s@[k]),
        decreases s.len() - i,
    {
        let c = s[i];
        if 'A' <= c && c <= 'Z' {
            r.push(((c as u8) + 32u8) as char);
        } else {
            r.push(c);
        }
        i = i + 1;
    }
    assert(r@ =~= ascii_lower(s@));
    r
}

/// The protocol that the first field of a line of `netstat` names, in capital or small
/// letters.
pub open spec fn netstat_protocol(token: Seq<char>) -> Option<Protocol> {
    ss_protocol(ascii_lower(token))
}

/// The state that `netstat` names with `token`; a name that is not known gives
/// `Unknown`.
pub open spec fn netstat_state(token: Seq<char>) -> ConnectionState {
    if token == "ESTABLISHED"@ {
        ConnectionState::Established
    } else if token == "LISTENING"@ || token == "LISTEN"@ {
        ConnectionState::Listen
    } else if token == "TIME_WAIT"@ {
        ConnectionState::TimeWait
    } else if token == "CLOSE_WAIT"@ {
        ConnectionState::CloseWait
    } else if token == "SYN_SENT"@ {
        ConnectionState::SynSent
    } else if token == "SYN_RECEIVED"@ || token == "SYN_RECV"@ {
        ConnectionState::SynReceived
    } else if token == "FIN_WAIT_1"@ {
        ConnectionState::FinWait1
    } else if token == "FIN_WAIT_2"@ {
        ConnectionState::FinWait2
    } else if token == "LAST_ACK"@ {
        ConnectionState::LastAck
    } else if token == "CLOSING"@ {
        ConnectionState::Closing
    } else {
        ConnectionState::Unknown
    }
}

fn read_netstat_state(token: &Vec<char>) -> (r: ConnectionState)
    ensures
        r == netstat_state(token@),
{
    if chars_are(token, "ESTABLISHED") {
        ConnectionState::Established
    } else if chars_are(token, "LISTENING") || chars_are(token, "LISTEN") {
        ConnectionState::Listen
    } else if chars_are(token, "TIME_WAIT") {
        ConnectionState::TimeWait
    } else if chars_are(token, "CLOSE_WAIT") {
        ConnectionState::CloseWait
    } else if chars_are(token, "SYN_SENT") {
        ConnectionState::SynSent
    } else if chars_are(token, "SYN_RECEIVED") || chars_are(token, "SYN_RECV") {
        ConnectionState::SynReceived
    } else if chars_are(token, "FIN_WAIT_1") {
        ConnectionState::FinWait1
    } else if chars_are(token, "FIN_WAIT_2") {
        ConnectionState::FinWait2
    } else if chars_are(token, "LAST_ACK") {
        ConnectionState::LastAck
    } else if chars_are(token, "CLOSING") {
        ConnectionState::Closing
    } else {
        ConnectionState::Unknown
    }
}

/// The process number that the field `PID/Program name` of `netstat` names: what
/// stands before its first slash.
pub open spec fn netstat_pid(field: Seq<char>) -> Option<u32> {
    match parse_unsigned(split(field, '/')[0], u32::MAX as nat) {
        Some(n) => Some(n as u32),
        None => None,
    }
}

/// The program that the field `PID/Program name` of `netstat` names: what stands
/// between its first and its second slash, unless that is nothing or a dash.
pub open spec fn netstat_program(field: Seq<char>) -> Option<Seq<char>> {
    let parts = split(field, '/');
    if parts.len() > 1 && parts[1].len() > 0 && parts[1] != "-"@ {
        Some(parts[1])
    } else {
        None
    }
}

/// The socket that one line of `netstat -tupn` lists, read at the time `now`; `None` for
/// a line with fewer than five fields, with another protocol than TCP and UDP, or with
/// an address that cannot be read.
///
/// The first field names the protocol, the second and the third the local and the
/// remote address, the sixth the state and the seventh the process, where the line has
/// them. The program is read only where a process number is.
pub open spec fn netstat_entry(line: Seq<char>, now: u64) -> Option<ConnectionView> {
    let f = fields(line);
    if f.len() < 5 {
        None
    } else {
        match (netstat_protocol(f[0]), addr_of(f[1]), addr_of(f[2])) {
            (Some(protocol), Some(local), Some(remote)) => {
                let state = if f.len() > 5 {
                    netstat_state(f[5])
                } else {
                    ConnectionState::Unknown
                };
                let pid = if f.len() > 6 && f[6] != "-"@ {
                    netstat_pid(f[6])
                } else {
                    None
                };
                Some(
                    ConnectionView {
                        pid,
                        process_name: if pid is Some {
                            netstat_program(f[6])
                        } else {
                            None
                        },
                        ..ConnectionView::fresh(protocol, local, remote, state, now)
                    },
                )
            },
            _ => None,
        }
    }
}

/// Reads one line of `netstat -tupn`.
pub fn parse_netstat_line(line: &Vec<char>, now: u64) -> (r: Option<Connection>)
    ensures
        match r {
            Some(c) => netstat_entry(line@, now) == Some(c@),
            None => netstat_entry(line@, now) is None,
        },
{
    let f = split_fields(line);
    if f.len() < 5 {
        return None;
    }
    assert(views(f@)[0] == f@[0]@);
    assert(views(f@)[1] == f@[1]@);
    assert(views(f@)[2] == f@[2]@);
    let lower = to_ascii_lower(&f[0]);
    let protocol = match read_ss_protocol(&lower) {
        Some(p) => p,
        None => {
            return None;
        },
    };
    let state = if f.len() > 5 {
        assert(views(f@)[5] == f@[5]@);
        read_netstat_state(&f[5])
    } else {
        ConnectionState::Unknown
    };
    match (parse_addr(&f[1]), parse_addr(&f[2])) {
        (Some(local), Some(remote)) => {
            let mut conn = Connection::new(protocol, local, remote, state, now);
            if f.len() > 6 {
                assert(views(f@)[6] == f@[6]@);
                if !chars_are(&f[6], "-") {
                    let parts = split_at_char(&f[6], '/');
                    assert(views(parts@)[0] == parts@[0]@);
                    match parse_number(&parts[0], 0xFFFF_FFFF) {
                        Some(pid) => {
                            conn.pid = Some(pid as u32);
                            if parts.len() > 1 {
                                assert(views(parts@)[1] == parts@[1]@);
                                if parts[1].len() > 0 && !chars_are(&parts[1], "-") {
                                    conn.process_name = Some(from_chars(&parts[1]));
                                }
                            }
                        },
                        None => {},
                    }
                }
            }
            Some(conn)
        },
        _ => None,
    }
}

/// The sockets that the lines of `netstat -tupn` list, in their order.
pub open spec fn netstat_line_entries(ls: Seq<Seq<char>>, now: u64) -> Seq<ConnectionView>
    decreases ls.len(),
{
    if ls.len() == 0 {
        Seq::empty()
    } else {
        match netstat_entry(ls.last(), now) {
            Some(e) => netstat_line_entries(ls.drop_last(), now).push(e),
            None => netstat_line_entries(ls.drop_last(), now),
        }
    }
}

/// The sockets that the output of `netstat -tupn` lists: those of its lines behind the
/// two lines of headings.
pub open spec fn netstat_entries(text: Seq<char>, now: u64) -> Seq<ConnectionView> {
    netstat_line_entries(after_headings(lines(text), 2), now)
}

/// Reads the output of `netstat -tupn`, made at the time `now`, and adds the sockets
/// that it lists to `connections`.
pub fn get_connections_from_netstat(text: &str, connections: &mut Vec<Connection>, now: u64)
    ensures
        entry_views(final(connections)@) == entry_views(old(connections)@) + netstat_entries(
            text@,
            now,
        ),
{
    let chars = to_chars(text);
    let ls = split_lines(&chars);
    let ghost all = views(ls@);
    let ghost body = after_headings(all, 2);
    let ghost start = entry_views(connections@);
    if ls.len() <= 2 {
        assert(entry_views(connections@) =~= start + netstat_line_entries(body, now));
        return ;
    }
    let mut i: usize = 2;
    assert(body.subrange(0, 0) =~= Seq::<Seq<char>>::empty());
    assert(entry_views(connections@) =~= start + netstat_line_entries(body.subrange(0, 0), now));
    while i < ls.len()
        invariant
            2 <= i <= ls.len(),
            all == views(ls@),
            body == after_headings(all, 2),
            entry_views(connections@) == start + netstat_line_entries(
                body.subrange(0, i - 2),
                now,
            ),
        decreases ls.len() - i,
    {
        assert(body.subrange(0, i - 1).drop_last() =~= body.subrange(0, i - 2));
        assert(body.subrange(0, i - 1).last() == ls@[i as int]@);
        let ghost before = entry_views(connections@);
        match parse_netstat_line(&ls[i], now) {
            Some(c) => {
                let ghost e = c@;
                connections.push(c);
                assert(entry_views(connections@) =~= before.push(e));
                assert(entry_views(connections@) =~= start + netstat_line_entries(
                    body.subrange(0, i - 1),
                    now,
                ));
            },
            None => {},
        }
        i = i + 1;
    }
    assert(body.subrange(0, ls.len() - 2) =~= body);
}

/// What the two commands list together: the sockets of `ss`, then those of `netstat`. A
/// command that could not be run gives no output and so lists nothing.
pub open spec fn listed_entries(
    ss_output: Option<Seq<char>>,
    netstat_output: Option<Seq<char>>,
    now: u64,
) -> Seq<ConnectionView> {
    (match ss_output {
        Some(text) => ss_entries(text, now),
        None => Seq::empty(),
    }) + (match netstat_output {
        Some(text) => netstat_entries(text, now),
        None => Seq::empty(),
    })
}

/// An example of a socket of the host with the address `local_ip`: an established
/// connection from the port `10000 + port` to the port `port` of 8.8.8.8.
pub open spec fn example_entry(
    protocol: Protocol,
    local_ip: IpAddress,
    port: u16,
    now: u64,
) -> ConnectionView
    recommends
        port <= 55535,
{
    ConnectionView::fresh(
        protocol,
        SocketAddress { ip: local_ip, port: (10000 + port) as u16 },
        SocketAddress { ip: IpAddress::V4(8, 8, 8, 8), port },
        ConnectionState::Established,
        now,
    )
}

/// The examples that stand in where the commands list nothing: connections to the web,
/// to a shell and to the name service, as far as the host's address is known.
pub open spec fn example_entries(local_ip: Option<IpAddress>, now: u64) -> Seq<ConnectionView> {
    match local_ip {
        Some(ip) => seq![
            example_entry(Protocol::TCP, ip, 80, now),
            example_entry(Protocol::TCP, ip, 443, now),
            example_entry(Protocol::TCP, ip, 22, now),
            example_entry(Protocol::TCP, ip, 53, now),
            example_entry(Protocol::UDP, ip, 53, now),
        ],
        None => Seq::empty(),
    }
}

/// What is added to a list of `known` sockets: what the two commands list; and where
/// the list is still empty after that, the examples.
pub open spec fn platform_entries(
    known: int,
    ss_output: Option<Seq<char>>,
    netstat_output: Option<Seq<char>>,
    local_ip: Option<IpAddress>,
    now: u64,
) -> Seq<ConnectionView> {
    let listed = listed_entries(ss_output, netstat_output, now);
    if known + listed.len() == 0 {
        example_entries(local_ip, now)
    } else {
        listed
    }
}

fn example(protocol: Protocol, local_ip: IpAddress, port: u16, now: u64) -> (r: Connection)
    requires
        port <= 55535,
    ensures
        r@ == example_entry(protocol, local_ip, port, now),
{
    Connection::new(
        protocol,
        SocketAddress { ip: local_ip, port: 10000 + port },
        SocketAddress { ip: IpAddress::V4(8, 8, 8, 8), port },
        ConnectionState::Established,
        now,
    )
}

/// Adds the examples that stand in for what the capture holds, as far as the host's
/// address is known.
pub fn get_connections_from_pcap(
    local_ip: Option<IpAddress>,
    connections: &mut Vec<Connection>,
    now: u64,
)
    ensures
        entry_views(final(connections)@) == entry_views(old(connections)@) + example_entries(
            local_ip,
            now,
        ),
{
    let ghost start = entry_views(connections@);
    match local_ip {
        Some(ip) => {
            connections.push(example(Protocol::TCP, ip, 80, now));
            connections.push(example(Protocol::TCP, ip, 443, now));
            connections.push(example(Protocol::TCP, ip, 22, now));
            connections.push(example(Protocol::TCP, ip, 53, now));
            connections.push(example(Protocol::UDP, ip, 53, now));
            assert(entry_views(connections@) =~= start + example_entries(local_ip, now));
        },
        None => {
            assert(entry_views(connections@) =~= start + example_entries(local_ip, now));
        },
    }
}

/// Adds to `connections` the sockets that the system lists at the time `now`, given what
/// `ss -tupn` and `netstat -tupn` wrote, where they ran. Where the list is empty after
/// that, the examples are added, as far as the host's address is known.
pub fn get_platform_connections(
    ss_output: Option<&str>,
    netstat_output: Option<&str>,
    local_ip: Option<IpAddress>,
    connections: &mut Vec<Connection>,
    now: u64,
)
    ensures
        entry_views(final(connections)@) == entry_views(old(connections)@) + platform_entries(
            old(connections)@.len() as int,
            match ss_output {
                Some(t) => Some(t@),
                None => None,
            },
            match netstat_output {
                Some(t) => Some(t@),
                None => None,
            },
            local_ip,
            now,
        ),
{
    let ghost start = entry_views(connections@);
    match ss_output {
        Some(text) => {
            get_connections_from_ss(text, connections, now);
        },
        None => {},
    }
    let ghost mid = entry_views(connections@);
    match netstat_output {
        Some(text) => {
            get_connections_from_netstat(text, connections, now);
        },
        None => {},
    }
    let ghost listed = listed_entries(
        match ss_output {
            Some(t) => Some(t@),
            None => None,
        },
        match netstat_output {
            Some(t) => Some(t@),
            None => None,
        },
        now,
    );
    assert(entry_views(connections@) =~= start + listed);
    if connections.len() == 0 {
        assert(start.len() + listed.len() == 0);
        assert(listed =~= Seq::<ConnectionView>::empty());
        get_connections_from_pcap(local_ip, connections, now);
    }
}

/// A colon and the port in decimal, as a port stands behind an address.
pub open spec fn port_marker(port: u16) -> Seq<char> {
    seq![':'] + decimal_text(port as nat)
}

fn port_marker_chars(port: u16) -> (r: Vec<char>)
    ensures
        r@ == port_marker(port),
{
    let mut r: Vec<char> = Vec::new();
    r.push(':');
    push_decimal(&mut r, port as u64);
    assert(r@ =~= port_marker(port));
    r
}

/// The name that a process of which only the number is known goes by.
pub open spec fn default_name(pid: u32) -> Seq<char> {
    "process-"@ + decimal_text(pid as nat)
}

fn default_name_chars(pid: u32) -> (r: Vec<char>)
    ensures
        r@ == default_name(pid),
{
    let mut r = to_chars("process-");
    push_decimal(&mut r, pid as u64);
    r
}

/// The text without every `pat` that stands at its start.
pub open spec fn strip_prefix_all(s: Seq<char>, pat: Seq<char>) -> Seq<char>
    decreases s.len(),
{
    if pat.len() > 0 && occurs_at(s, pat, 0) {
        strip_prefix_all(s.subrange(pat.len() as int, s.len() as int), pat)
    } else {
        s
    }
}

/// The text without every `c` that stands at its end.
pub open spec fn strip_trailing(s: Seq<char>, c: char) -> Seq<char>
    decreases s.len(),
{
    if s.len() > 0 && s.last() == c {
        strip_trailing(s.drop_last(), c)
    } else {
        s
    }
}

fn strip_prefixes(s: &Vec<char>, pat: &Vec<char>) -> (r: Vec<char>)
    ensures
        r@ == strip_prefix_all(s@, pat@),
{
    if pat.len() == 0 {
        return slice_chars(s, 0, s.len());
    }
    let mut start: usize = 0;
    assert(s@.subrange(0, s@.len() as int) =~= s@);
    while pat.len() <= s.len() && start <= s.len() - pat.len() && matches_at(s, pat, start)
        invariant
            start <= s.len(),
            pat.len() > 0,
            strip_prefix_all(s@, pat@) == strip_prefix_all(
                s@.subrange(start as int, s@.len() as int),
                pat@,
            ),
        decreases s.len() - start,
    {
        let ghost rest = s@.subrange(start as int, s@.len() as int);
        assert(rest.subrange(0, pat@.len() as int) =~= s@.subrange(
            start as int,
            start + pat@.len(),
        ));
        assert(rest.subrange(pat@.len() as int, rest.len() as int) =~= s@.subrange(
            start + pat@.len(),
            s@.len() as int,
        ));
        start = start + pat.len();
    }
    proof {
        let rest = s@.subrange(start as int, s@.len() as int);
        if pat@.len() <= rest.len() {
            assert(rest.subrange(0, pat@.len() as int) =~= s@.subrange(
                start as int,
                start + pat@.len(),
            ));
        }
    }
    slice_chars(s, start, s.len())
}

fn strip_trailing_char(s: &Vec<char>, c: char) -> (r: Vec<char>)
    ensures
        r@ == strip_trailing(s@, c),
{
    let mut end: usize = s.len();
    assert(s@.subrange(0, s@.len() as int) =~= s@);
    while end > 0 && s[end - 1] == c
        invariant
            end <= s.len(),
            strip_trailing(s@, c) == strip_trailing(s@.subrange(0, end as int), c),
        decreases end,
    {
        assert(s@.subrange(0, end as int).drop_last() =~= s@.subrange(0, end - 1));
        end = end - 1;
    }
    slice_chars(s, 0, end)
}

/// The text that stands before the list of a socket's users in a line of `ss`.
pub open spec fn users_marker() -> Seq<char> {
    "users:"@ + seq!['(']
}

/// The name of the process that a line of `ss` names: what stands between the users
/// marker and the next comma, without the bracket and the quotation marks around it;
/// the default name where the line has no such text.
pub open spec fn ss_process_name(line: Seq<char>, pid: u32) -> Seq<char> {
    match find(line, users_marker()) {
        Some(at) => {
            let part = line.subrange(at + users_marker().len(), line.len() as int);
            match find(part, seq![',']) {
                Some(end) => strip_trailing(
                    strip_prefix_all(part.subrange(0, end), seq!['(', '"']),
                    '"',
                ),
                None => default_name(pid),
            }
        },
        None => default_name(pid),
    }
}

/// The process that a line of `ss` names, where it names a process number.
pub open spec fn ss_process_in(line: Seq<char>) -> Option<ProcessView> {
    match pid_in(line) {
        Some(pid) => Some(ProcessView::named(pid, ss_process_name(line, pid))),
        None => None,
    }
}

/// Whether the line names both ports, each behind a colon.
pub open spec fn names_ports(line: Seq<char>, local_port: u16, remote_port: u16) -> bool {
    contains(line, port_marker(local_port)) && contains(line, port_marker(remote_port))
}

/// The first of the lines that names both ports.
pub open spec fn first_line_with_ports(
    ls: Seq<Seq<char>>,
    local_port: u16,
    remote_port: u16,
) -> Option<Seq<char>>
    decreases ls.len(),
{
    if ls.len() == 0 {
        None
    } else if names_ports(ls[0], local_port, remote_port) {
        Some(ls[0])
    } else {
        first_line_with_ports(ls.drop_first(), local_port, remote_port)
    }
}

/// The process that owns the socket with the two ports, by the output of `ss -p -n`:
/// the process that the first line behind the heading that names both ports names.
pub open spec fn ss_process(text: Seq<char>, local_port: u16, remote_port: u16) -> Option<
    ProcessView,
> {
    match first_line_with_ports(after_headings(lines(text), 1), local_port, remote_port) {
        Some(line) => ss_process_in(line),
        None => None,
    }
}

fn read_ss_process(line: &Vec<char>) -> (r: Option<Process>)
    ensures
        match r {
            Some(p) => ss_process_in(line@) == Some(p@),
            None => ss_process_in(line@) is None,
        },
{
    let pid = match read_pid(line) {
        Some(pid) => pid,
        None => {
            return None;
        },
    };
    let mut marker = to_chars("users:");
    marker.push('(');
    assert(marker@ =~= users_marker());
    let name: Vec<char> = match find_in(line, &marker) {
        Some(at) => {
            let n = line.len();
            assert(at + marker@.len() <= n);
            let part = slice_chars(line, at + marker.len(), n);
            match find_char(&part, ',') {
                Some(end) => {
                    let raw = slice_chars(&part, 0, end);
                    let mut opening: Vec<char> = Vec::new();
                    opening.push('(');
                    opening.push('"');
                    assert(opening@ =~= seq!['(', '"']);
                    let front = strip_prefixes(&raw, &opening);
                    strip_trailing_char(&front, '"')
                },
                None => default_name_chars(pid),
            }
        },
        None => default_name_chars(pid),
    };
    Some(
        Process { pid, name: from_chars(&name), command_line: None, user: None, memory_usage: None },
    )
}

/// Finds the process that owns the socket `connection` in what `ss -p -n` wrote.
pub fn try_ss_command(output: &str, connection: &Connection) -> (r: Option<Process>)
    ensures
        match r {
            Some(p) => ss_process(
                output@,
                connection@.local_addr.port,
                connection@.remote_addr.port,
            ) == Some(p@),
            None => ss_process(output@, connection@.local_addr.port, connection@.remote_addr.port)
                is None,
        },
{
    let chars = to_chars(output);
    let ls = split_lines(&chars);
    let local = port_marker_chars(connection.local_addr.port);
    let remote = port_marker_chars(connection.remote_addr.port);
    let ghost body = after_headings(views(ls@), 1);
    if ls.len() <= 1 {
        return None;
    }
    let mut i: usize = 1;
    assert(body.subrange(0, body.len() as int) =~= body);
    while i < ls.len()
        invariant
            1 <= i <= ls.len(),
            views(ls@) == lines(output@),
            body == after_headings(views(ls@), 1),
            local@ == port_marker(connection@.local_addr.port),
            remote@ == port_marker(connection@.remote_addr.port),
            first_line_with_ports(
                body,
                connection@.local_addr.port,
                connection@.remote_addr.port,
            ) == first_line_with_ports(
                body.subrange(i - 1, body.len() as int),
                connection@.local_addr.port,
                connection@.remote_addr.port,
            ),
        decreases ls.len() - i,
    {
        let ghost rest = body.subrange(i - 1, body.len() as int);
        assert(rest[0] == ls@[i as int]@);
        assert(rest.drop_first() =~= body.subrange(i as int, body.len() as int));
        if find_in(&ls[i], &local).is_some() && find_in(&ls[i], &remote).is_some() {
            return read_ss_process(&ls[i]);
        }
        i = i + 1;
    }
    None
}

/// Whether a line of `netstat`, cut into the fields `f`, lists the socket `c`: it names
/// the socket's protocol, and each of its two address fields holds the address of the
/// socket or at least its port behind a colon.
pub open spec fn netstat_line_matches(f: Seq<Seq<char>>, c: ConnectionView) -> bool {
    &&& f.len() >= 5
    &&& netstat_protocol(f[0]) == Some(c.protocol)
    &&& (contains(f[1], c.local_addr.text()) || contains(f[1], port_marker(c.local_addr.port)))
    &&& (contains(f[2], c.remote_addr.text()) || contains(f[2], port_marker(c.remote_addr.port)))
}

/// The first of the lines that lists the socket `c`, cut into its fields.
pub open spec fn first_netstat_match(ls: Seq<Seq<char>>, c: ConnectionView) -> Option<
    Seq<Seq<char>>,
>
    decreases ls.len(),
{
    if ls.len() == 0 {
        None
    } else if netstat_line_matches(fields(ls[0]), c) {
        Some(fields(ls[0]))
    } else {
        first_netstat_match(ls.drop_first(), c)
    }
}

/// The number of the process that owns the socket `c`, by the output of `netstat
/// -tupn`: what the seventh field of the first line that lists the socket says, where
/// it is a number.
pub open spec fn netstat_owner(text: Seq<char>, c: ConnectionView) -> Option<u32> {
    match first_netstat_match(after_headings(lines(text), 2), c) {
        Some(f) => if f.len() > 6 && f[6] != "-"@ {
            match parse_unsigned(f[6], u32::MAX as nat) {
                Some(n) => Some(n as u32),
                None => None,
            }
        } else {
            None
        },
        None => None,
    }
}

fn line_matches(f: &Vec<Vec<char>>, connection: &Connection, local: &Vec<char>, remote: &Vec<
    char,
>, local_port: &Vec<char>, remote_port: &Vec<char>) -> (r: bool)
    requires
        local@ == connection@.local_addr.text(),
        remote@ == connection@.remote_addr.text(),
        local_port@ == port_marker(connection@.local_addr.port),
        remote_port@ == port_marker(connection@.remote_addr.port),
    ensures
        r == netstat_line_matches(views(f@), connection@),
{
    if f.len() < 5 {
        return false;
    }
    assert(views(f@)[0] == f@[0]@);
    assert(views(f@)[1] == f@[1]@);
    assert(views(f@)[2] == f@[2]@);
    let lower = to_ascii_lower(&f[0]);
    let same_protocol = match read_ss_protocol(&lower) {
        Some(p) => p == connection.protocol,
        None => false,
    };
    same_protocol && (find_in(&f[1], local).is_some() || find_in(&f[1], local_port).is_some())
        && (find_in(&f[2], remote).is_some() || find_in(&f[2], remote_port).is_some())
}

/// Finds the number of the process that owns the socket `connection` in what `netstat
/// -tupn` wrote.
pub fn try_netstat_command(output: &str, connection: &Connection) -> (r: Option<u32>)
    ensures
        r == netstat_owner(output@, connection@),
{
    let chars = to_chars(output);
    let ls = split_lines(&chars);
    let mut local: Vec<char> = Vec::new();
    connection.local_addr.push_text(&mut local);
    assert(local@ =~= connection@.local_addr.text());
    let mut remote: Vec<char> = Vec::new();
    connection.remote_addr.push_text(&mut remote);
    assert(remote@ =~= connection@.remote_addr.text());
    let local_port = port_marker_chars(connection.local_addr.port);
    let remote_port = port_marker_chars(connection.remote_addr.port);
    let ghost body = after_headings(views(ls@), 2);
    if ls.len() <= 2 {
        return None;
    }
    let mut i: usize = 2;
    assert(body.subrange(0, body.len() as int) =~= body);
    while i < ls.len()
        invariant
            2 <= i <= ls.len(),
            views(ls@) == lines(output@),
            body == after_headings(views(ls@), 2),
            local@ == connection@.local_addr.text(),
            remote@ == connection@.remote_addr.text(),
            local_port@ == port_marker(connection@.local_addr.port),
            remote_port@ == port_marker(connection@.remote_addr.port),
            first_netstat_match(body, connection@) == first_netstat_match(
                body.subrange(i - 2, body.len() as int),
                connection@,
            ),
        decreases ls.len() - i,
    {
        let ghost rest = body.subrange(i - 2, body.len() as int);
        assert(rest[0] == ls@[i as int]@);
        assert(rest.drop_first() =~= body.subrange(i - 1, body.len() as int));
        let f = split_fields(&ls[i]);
        if line_matches(&f, connection, &local, &remote, &local_port, &remote_port) {
            if f.len() > 6 {
                assert(views(f@)[6] == f@[6]@);
                if !chars_are(&f[6], "-") {
                    return match parse_number(&f[6], 0xFFFF_FFFF) {
                        Some(n) => Some(n as u32),
                        None => None,
                    };
                }
            }
            return None;
        }
        i = i + 1;
    }
    None
}

/// The process with the number `pid`, under the name that was found for it, or under
/// the default name where none was found.
pub fn process_with_name(pid: u32, name: Option<String>) -> (r: Process)
    ensures
        r@ == ProcessView::named(pid, match name {
            Some(n) => n@,
            None => default_name(pid),
        }),
{
    let name = match name {
        Some(n) => n,
        None => from_chars(&default_name_chars(pid)),
    };
    Process { pid, name, command_line: None, user: None, memory_usage: None }
}

/// The name of a process as the file `comm` of the process holds it: the file's text
/// without the white space around it.
pub fn get_process_name_by_pid(comm: &str) -> (r: String)
    ensures
        r@ == trimmed(comm@),
{
    let chars = to_chars(comm);
    from_chars(&trim(&chars))
}

/// An IPv4 address as the socket files of `/proc/net` write it here: the four octets as
/// one number, the first the highest, in capital hexadecimal digits.
pub open spec fn proc_addr_text(a: u8, b: u8, c: u8, d: u8) -> Seq<char> {
    hex_text((a * 16777216 + b * 65536 + c * 256 + d) as nat, true)
}

/// The inode of the socket that one line of a socket file of `/proc/net` lists, where
/// the line is of the socket with the local address `local`: its second field names the
/// port of `local` behind the address of `local` or behind the address of all zeros. The
/// inode is the line's tenth field.
pub open spec fn proc_line_inode(line: Seq<char>, local: SocketAddress) -> Option<Seq<char>> {
    let f = fields(line);
    match local.ip {
        IpAddress::V4(a, b, c, d) => if f.len() < 10 {
            None
        } else {
            match rfind_char(f[1], ':', f[1].len() as int) {
                Some(k) => {
                    let addr = f[1].subrange(0, k);
                    let port = f[1].subrange(k + 1, f[1].len() as int);
                    if port == hex_text(local.port as nat, true) && (addr == proc_addr_text(
                        a,
                        b,
                        c,
                        d,
                    ) || addr == "00000000"@) {
                        Some(f[9])
                    } else {
                        None
                    }
                },
                None => None,
            }
        },
        IpAddress::V6(_) => None,
    }
}

/// The inodes that the lines list for the socket with the local address `local`, in the
/// order of the lines.
pub open spec fn proc_line_inodes(ls: Seq<Seq<char>>, local: SocketAddress) -> Seq<Seq<char>>
    decreases ls.len(),
{
    if ls.len() == 0 {
        Seq::empty()
    } else {
        match proc_line_inode(ls.last(), local) {
            Some(inode) => proc_line_inodes(ls.drop_last(), local).push(inode),
            None => proc_line_inodes(ls.drop_last(), local),
        }
    }
}

/// The inodes that a socket file of `/proc/net` lists for the socket with the local
/// address `local`: those of its lines behind the heading.
pub open spec fn proc_inodes(contents: Seq<char>, local: SocketAddress) -> Seq<Seq<char>> {
    proc_line_inodes(after_headings(lines(contents), 1), local)
}

fn read_proc_line(line: &Vec<char>, addr: &Vec<char>, port: &Vec<char>, local: &SocketAddress) -> (r:
    Option<Vec<char>>)
    requires
        match local.ip {
            IpAddress::V4(a, b, c, d) => addr@ == proc_addr_text(a, b, c, d),
            IpAddress::V6(_) => false,
        },
        port@ == hex_text(local.port as nat, true),
    ensures
        match r {
            Some(inode) => proc_line_inode(line@, *local) == Some(inode@),
            None => proc_line_inode(line@, *local) is None,
        },
{
    let f = split_fields(line);
    if f.len() < 10 {
        return None;
    }
    assert(views(f@)[1] == f@[1]@);
    assert(views(f@)[9] == f@[9]@);
    match rfind_in(&f[1], ':') {
        Some(k) => {
            let a = slice_chars(&f[1], 0, k);
            let p = slice_chars(&f[1], k + 1, f[1].len());
            if chars_equal(&p, port) && (chars_equal(&a, addr) || chars_are(&a, "00000000")) {
                Some(slice_chars(&f[9], 0, f[9].len()))
            } else {
                None
            }
        },
        None => None,
    }
}

/// The strings of `v` as texts, in the same order.
pub open spec fn string_views(v: Seq<String>) -> Seq<Seq<char>> {
    Seq::new(v.len(), |i: int| v[i]@)
}

/// Reads from a socket file of `/proc/net` the inodes of the sockets that have the local
/// address of `connection`. No socket is found for an IPv6 address.
pub fn try_proc_parsing(contents: &str, connection: &Connection) -> (r: Vec<String>)
    ensures
        string_views(r@) == proc_inodes(contents@, connection@.local_addr),
{
    let mut out: Vec<String> = Vec::new();
    let chars = to_chars(contents);
    let ls = split_lines(&chars);
    let ghost body = after_headings(views(ls@), 1);
    let ghost local = connection@.local_addr;
    let mut addr: Vec<char> = Vec::new();
    match connection.local_addr.ip {
        IpAddress::V4(a, b, c, d) => {
            let n: u64 = (a as u64) * 16777216 + (b as u64) * 65536 + (c as u64) * 256 + d as u64;
            push_hex(&mut addr, n, true);
            assert(addr@ =~= proc_addr_text(a, b, c, d));
        },
        IpAddress::V6(_) => {
            proof {
                lemma_no_inodes_for_v6(body, local);
            }
            assert(string_views(out@) =~= Seq::<Seq<char>>::empty());
            return out;
        },
    }
    let mut port: Vec<char> = Vec::new();
    push_hex(&mut port, connection.local_addr.port as u64, true);
    assert(port@ =~= hex_text(local.port as nat, true));
    if ls.len() <= 1 {
        assert(string_views(out@) =~= proc_line_inodes(body, local));
        return out;
    }
    let mut i: usize = 1;
    assert(body.subrange(0, 0) =~= Seq::<Seq<char>>::empty());
    assert(string_views(out@) =~= proc_line_inodes(body.subrange(0, 0), local));
    while i < ls.len()
        invariant
            1 <= i <= ls.len(),
            body == after_headings(views(ls@), 1),
            local == connection@.local_addr,
            match local.ip {
                IpAddress::V4(a, b, c, d) => addr@ == proc_addr_text(a, b, c, d),
                IpAddress::V6(_) => false,
            },
            port@ == hex_text(local.port as nat, true),
            string_views(out@) == proc_line_inodes(body.subrange(0, i - 1), local),
        decreases ls.len() - i,
    {
        assert(body.subrange(0, i as int).drop_last() =~= body.subrange(0, i - 1));
        assert(body.subrange(0, i as int).last() == ls@[i as int]@);
        let ghost before = string_views(out@);
        match read_proc_line(&ls[i], &addr, &port, &connection.local_addr) {
            Some(inode) => {
                out.push(from_chars(&inode));
                assert(string_views(out@) =~= before.push(inode@));
            },
            None => {},
        }
        i = i + 1;
    }
    assert(body.subrange(0, ls.len() - 1) =~= body);
    out
}

proof fn lemma_no_inodes_for_v6(ls: Seq<Seq<char>>, local: SocketAddress)
    requires
        local.ip is V6,
    ensures
        proc_line_inodes(ls, local) == Seq::<Seq<char>>::empty(),
    decreases ls.len(),
{
    if ls.len() > 0 {
        lemma_no_inodes_for_v6(ls.drop_last(), local);
    }
}

/// What the link of an open file reads where the file is the socket with the inode
/// `inode`.
pub open spec fn socket_link(inode: Seq<char>) -> Seq<char> {
    "socket:"@ + seq!['['] + inode + seq![']']
}

/// Whether the link of an open file names the socket with the inode `inode`.
pub fn fd_names_socket(target: &str, inode: &str) -> (r: bool)
    ensures
        r == contains(target@, socket_link(inode@)),
{
    let mut link = to_chars("socket:");
    link.push('[');
    push_str(&mut link, inode);
    link.push(']');
    assert(link@ =~= socket_link(inode@));
    let t = to_chars(target);
    find_in(&t, &link).is_some()
}

/// The process number that the name of a directory of `/proc` writes, if it writes one.
pub fn pid_of_dir_name(name: &str) -> (r: Option<u32>)
    ensures
        r == match parse_unsigned(name@, u32::MAX as nat) {
            Some(n) => Some(n as u32),
            None => None,
        },
{
    let chars = to_chars(name);
    match parse_number(&chars, 0xFFFF_FFFF) {
        Some(n) => Some(n as u32),
        None => None,
    }
}

/// What is known of one network interface of the host.
#[derive(Debug, Clone)]
pub struct InterfaceInfo {
    pub is_up: bool,
    pub is_loopback: bool,
    pub ips: Vec<IpAddress>,
}

/// The first IPv4 address among the addresses.
pub open spec fn first_v4(ips: Seq<IpAddress>) -> Option<IpAddress>
    decreases ips.len(),
{
    if ips.len() == 0 {
        None
    } else if ips[0] is V4 {
        Some(ips[0])
    } else {
        first_v4(ips.drop_first())
    }
}

/// The first IPv4 address of an interface that is up and is no loopback interface.
pub open spec fn first_host_address(interfaces: Seq<InterfaceInfo>) -> Option<IpAddress>
    decreases interfaces.len(),
{
    if interfaces.len() == 0 {
        None
    } else if interfaces[0].is_up && !interfaces[0].is_loopback && first_v4(interfaces[0].ips@)
        is Some {
        first_v4(interfaces[0].ips@)
    } else {
        first_host_address(interfaces.drop_first())
    }
}

fn find_first_v4(ips: &Vec<IpAddress>) -> (r: Option<IpAddress>)
    ensures
        r == first_v4(ips@),
{
    let mut i: usize = 0;
    assert(ips@.subrange(0, ips@.len() as int) =~= ips@);
    while i < ips.len()
        invariant
            i <= ips.len(),
            first_v4(ips@) == first_v4(ips@.subrange(i as int, ips@.len() as int)),
        decreases ips.len() - i,
    {
        let ghost rest = ips@.subrange(i as int, ips@.len() as int);
        assert(rest[0] == ips@[i as int]);
        assert(rest.drop_first() =~= ips@.subrange(i + 1, ips@.len() as int));
        if ips[i].is_ipv4() {
            return Some(ips[i]);
        }
        i = i + 1;
    }
    None
}

/// The address by which the host is reached: the first IPv4 address of an interface
/// that is up and is no loopback interface, or 192.168.1.100 where there is none.
pub fn local_ip_address(interfaces: &Vec<InterfaceInfo>) -> (r: Option<IpAddress>)
    ensures
        r == Some(
            match first_host_address(interfaces@) {
                Some(ip) => ip,
                None => IpAddress::V4(192, 168, 1, 100),
            },
        ),
{
    let mut i: usize = 0;
    assert(interfaces@.subrange(0, interfaces@.len() as int) =~= interfaces@);
    while i < interfaces.len()
        invariant
            i <= interfaces.len(),
            first_host_address(interfaces@) == first_host_address(
                interfaces@.subrange(i as int, interfaces@.len() as int),
            ),
        decreases interfaces.len() - i,
    {
        let ghost rest = interfaces@.subrange(i as int, interfaces@.len() as int);
        assert(rest[0] == interfaces@[i as int]);
        assert(rest.drop_first() =~= interfaces@.subrange(i + 1, interfaces@.len() as int));
        let interface = &interfaces[i];
        if interface.is_up && !interface.is_loopback {
            match find_first_v4(&interface.ips) {
                Some(ip) => {
                    return Some(ip);
                },
                None => {},
            }
        }
        i = i + 1;
    }
    Some(IpAddress::V4(192, 168, 1, 100))
}

} // verus!
