//! How a packet changes the record of its flow, and how two records go together.

use vstd::prelude::*;
use crate::network::dpi::{DpiResult, DpiResultView};
use crate::network::parser::{ParsedPacket, ParsedPacketView, TcpFlags};
use crate::network::types::{
    clone_opt_dpi, Connection, ConnectionView, DpiInfo, DpiInfoView, ProtocolState, TcpState,
};
use crate::text::clone_opt_string;

verus! {

/// The state of a TCP connection after a segment with the given flags was seen, going out
/// or coming in.
///
/// A reset closes the connection from any state. A lone SYN opens it, a SYN with ACK
/// coming in answers our SYN, a lone ACK going out answers theirs, and a lone ACK in an
/// unknown state belongs to a connection that stands. A FIN without SYN starts or goes on
/// with the closing, a lone ACK coming in confirms our FIN. Any other segment changes
/// nothing.
pub open spec fn next_state(current: TcpState, flags: TcpFlags, is_outgoing: bool) -> TcpState {
    let lone_syn = flags.syn && !flags.ack && !flags.fin;
    let syn_ack = flags.syn && flags.ack && !flags.fin;
    let lone_ack = !flags.syn && flags.ack && !flags.fin;
    let fin = !flags.syn && flags.fin;
    if flags.rst {
        TcpState::Closed
    } else {
        match current {
            TcpState::Unknown => if lone_syn {
                if is_outgoing {
                    TcpState::SynSent
                } else {
                    TcpState::SynReceived
                }
            } else if lone_ack {
                TcpState::Established
            } else {
                current
            },
            TcpState::Listen => if lone_syn {
                if is_outgoing {
                    TcpState::SynSent
                } else {
                    TcpState::SynReceived
                }
            } else {
                current
            },
            TcpState::SynSent => if syn_ack && !is_outgoing {
                TcpState::Established
            } else {
                current
            },
            TcpState::SynReceived => if lone_ack && is_outgoing {
                TcpState::Established
            } else {
                current
            },
            TcpState::Established => if fin {
                if is_outgoing {
                    TcpState::FinWait1
                } else {
                    TcpState::CloseWait
                }
            } else {
                current
            },
            TcpState::FinWait1 => if lone_ack && !is_outgoing {
                TcpState::FinWait2
            } else if fin && !is_outgoing {
                TcpState::Closing
            } else {
                current
            },
            TcpState::FinWait2 => if fin && !is_outgoing {
                TcpState::TimeWait
            } else {
                current
            },
            TcpState::CloseWait => if fin && is_outgoing {
                TcpState::LastAck
            } else {
                current
            },
            TcpState::LastAck => if lone_ack && !is_outgoing {
                TcpState::Closed
            } else {
                current
            },
            TcpState::Closing => if lone_ack && !is_outgoing {
                TcpState::TimeWait
            } else {
                current
            },
            TcpState::TimeWait => current,
            TcpState::Closed => current,
        }
    }
}

/// The state of a TCP connection after a segment with the given flags was seen.
pub fn update_tcp_state(current_state: TcpState, flags: &TcpFlags, is_outgoing: bool) -> (r:
    TcpState)
    ensures
        r == next_state(current_state, *flags, is_outgoing),
{
    match (current_state, flags.syn, flags.ack, flags.fin, flags.rst) {
        (TcpState::Unknown, true, false, false, false) if !is_outgoing => TcpState::SynReceived,
        (TcpState::Unknown, true, false, false, false) if is_outgoing => TcpState::SynSent,
        (TcpState::Listen, true, false, false, false) if !is_outgoing => TcpState::SynReceived,
        (TcpState::Listen, true, false, false, false) if is_outgoing => TcpState::SynSent,
        (TcpState::SynSent, true, true, false, false) if !is_outgoing => TcpState::Established,
        (TcpState::SynReceived, false, true, false, false) if is_outgoing => TcpState::Established,
        (TcpState::Unknown, false, true, false, false) => TcpState::Established,
        (TcpState::Established, false, _, true, false) if is_outgoing => TcpState::FinWait1,
        (TcpState::Established, false, _, true, false) if !is_outgoing => TcpState::CloseWait,
        (TcpState::FinWait1, false, true, false, false) if !is_outgoing => TcpState::FinWait2,
        (TcpState::FinWait1, false, _, true, false) if !is_outgoing => TcpState::Closing,
        (TcpState::FinWait2, false, _, true, false) if !is_outgoing => TcpState::TimeWait,
        (TcpState::CloseWait, false, _, true, false) if is_outgoing => TcpState::LastAck,
        (TcpState::LastAck, false, true, false, false) if !is_outgoing => TcpState::Closed,
        (TcpState::Closing, false, true, false, false) if !is_outgoing => TcpState::TimeWait,
        (_, _, _, _, true) => TcpState::Closed,
        _ => current_state,
    }
}

/// From the unknown state, a segment seen a second time leaves the state that it led to
/// the first time.
pub proof fn lemma_same_segment_twice(flags: TcpFlags, is_outgoing: bool)
    ensures
        next_state(next_state(TcpState::Unknown, flags, is_outgoing), flags, is_outgoing)
            == next_state(TcpState::Unknown, flags, is_outgoing),
{
}

/// A reset closes the connection, whatever its state was.
pub proof fn lemma_reset_closes(current: TcpState, flags: TcpFlags, is_outgoing: bool)
    requires
        flags.rst,
    ensures
        next_state(current, flags, is_outgoing) == TcpState::Closed,
{
}

/// The sum of two counters, which stays at the largest number once it is reached.
pub open spec fn sat_add(a: u64, b: u64) -> u64 {
    if a + b > u64::MAX {
        u64::MAX
    } else {
        (a + b) as u64
    }
}

pub fn saturating_sum(a: u64, b: u64) -> (r: u64)
    ensures
        r == sat_add(a, b),
{
    if b > u64::MAX - a {
        u64::MAX
    } else {
        a + b
    }
}

/// The TCP state of a flow, or `Unknown` where the flow is not known as TCP.
pub open spec fn tcp_state_of(state: ProtocolState) -> TcpState {
    match state {
        ProtocolState::Tcp(s) => s,
        _ => TcpState::Unknown,
    }
}

/// What inspection found, noted at the time `now`.
pub open spec fn dpi_found(result: DpiResultView, now: u64) -> DpiInfoView {
    DpiInfoView { application: result.application, first_packet_time: now, last_update_time: now }
}

/// What inspection says of a flow after one more result: what it said before, where it
/// said anything; else the new result, noted at the time `now`.
pub open spec fn dpi_after(
    known: Option<DpiInfoView>,
    result: Option<DpiResultView>,
    now: u64,
) -> Option<DpiInfoView> {
    match known {
        Some(d) => Some(d),
        None => match result {
            Some(r) => Some(dpi_found(r, now)),
            None => None,
        },
    }
}

/// The flow `c` after the packet `p` was seen at the time `now`: the packet is counted in
/// its direction, the time of the last activity is `now`, a TCP flow's state follows the
/// packet's flags and any other flow has the state that the packet names, and what
/// inspection found is noted unless something was noted before.
pub open spec fn with_packet(c: ConnectionView, p: ParsedPacketView, now: u64) -> ConnectionView {
    ConnectionView {
        last_activity: now,
        packets_sent: if p.is_outgoing {
            sat_add(c.packets_sent, 1)
        } else {
            c.packets_sent
        },
        bytes_sent: if p.is_outgoing {
            sat_add(c.bytes_sent, p.packet_len as u64)
        } else {
            c.bytes_sent
        },
        packets_received: if p.is_outgoing {
            c.packets_received
        } else {
            sat_add(c.packets_received, 1)
        },
        bytes_received: if p.is_outgoing {
            c.bytes_received
        } else {
            sat_add(c.bytes_received, p.packet_len as u64)
        },
        protocol_state: match p.tcp_flags {
            Some(flags) => ProtocolState::Tcp(
                next_state(tcp_state_of(c.protocol_state), flags, p.is_outgoing),
            ),
            None => p.protocol_state,
        },
        dpi_info: dpi_after(c.dpi_info, p.dpi_result, now),
        ..c
    }
}

/// The flow that the packet `p`, seen at the time `now`, is the first packet of.
pub open spec fn from_packet(p: ParsedPacketView, now: u64) -> ConnectionView {
    ConnectionView {
        protocol: p.protocol,
        local_addr: p.local_addr,
        remote_addr: p.remote_addr,
        remote_host: None,
        protocol_state: match p.tcp_flags {
            Some(flags) => ProtocolState::Tcp(
                next_state(TcpState::Unknown, flags, p.is_outgoing),
            ),
            None => p.protocol_state,
        },
        pid: None,
        process_name: None,
        bytes_sent: if p.is_outgoing {
            p.packet_len as u64
        } else {
            0
        },
        bytes_received: if p.is_outgoing {
            0
        } else {
            p.packet_len as u64
        },
        packets_sent: if p.is_outgoing {
            1
        } else {
            0
        },
        packets_received: if p.is_outgoing {
            0
        } else {
            1
        },
        created_at: now,
        last_activity: now,
        service_name: None,
        dpi_info: dpi_after(None, p.dpi_result, now),
        rtt_estimate: None,
    }
}

/// Counts the packet `parsed`, seen at the time `now`, on the flow `conn`.
pub fn merge_packet_into_connection(conn: Connection, parsed: &ParsedPacket, now: u64) -> (r:
    Connection)
    ensures
        r@ == with_packet(conn@, parsed@, now),
        r@.flow() == conn@.flow(),
        r@.bytes_sent >= conn@.bytes_sent,
        r@.bytes_received >= conn@.bytes_received,
        r@.packets_sent >= conn@.packets_sent,
        r@.packets_received >= conn@.packets_received,
        now >= conn@.created_at ==> r@.well_timed(),
        conn@.dpi_info is Some ==> r@.dpi_info == conn@.dpi_info,
{
    let mut conn = conn;
    conn.last_activity = now;
    if parsed.is_outgoing {
        conn.packets_sent = saturating_sum(conn.packets_sent, 1);
        conn.bytes_sent = saturating_sum(conn.bytes_sent, parsed.packet_len as u64);
    } else {
        conn.packets_received = saturating_sum(conn.packets_received, 1);
        conn.bytes_received = saturating_sum(conn.bytes_received, parsed.packet_len as u64);
    }
    match &parsed.tcp_flags {
        Some(flags) => {
            let current = match conn.protocol_state {
                ProtocolState::Tcp(state) => state,
                _ => TcpState::Unknown,
            };
            conn.protocol_state = ProtocolState::Tcp(
                update_tcp_state(current, flags, parsed.is_outgoing),
            );
        },
        None => {
            conn.protocol_state = parsed.protocol_state;
        },
    }
    if let Some(dpi_result) = &parsed.dpi_result {
        merge_dpi_info(&mut conn, dpi_result, now);
    }
    conn
}

/// The flow of which `parsed`, seen at the time `now`, is the first packet.
pub fn create_connection_from_packet(parsed: &ParsedPacket, now: u64) -> (r: Connection)
    ensures
        r@ == from_packet(parsed@, now),
        r@.well_timed(),
        r@.packets_sent + r@.packets_received == 1,
{
    let mut conn = Connection::new(
        parsed.protocol,
        parsed.local_addr,
        parsed.remote_addr,
        parsed.protocol_state,
        now,
    );
    if let Some(tcp_flags) = &parsed.tcp_flags {
        conn.protocol_state = ProtocolState::Tcp(
            update_tcp_state(TcpState::Unknown, tcp_flags, parsed.is_outgoing),
        );
    }
    if parsed.is_outgoing {
        conn.packets_sent = 1;
        conn.bytes_sent = parsed.packet_len as u64;
    } else {
        conn.packets_received = 1;
        conn.bytes_received = parsed.packet_len as u64;
    }
    if let Some(dpi_result) = &parsed.dpi_result {
        conn.dpi_info = Some(
            DpiInfo {
                application: dpi_result.application.clone(),
                first_packet_time: now,
                last_update_time: now,
            },
        );
    }
    conn
}

/// Notes what inspection found on a flow of which nothing was noted yet.
pub fn merge_dpi_info(conn: &mut Connection, dpi_result: &DpiResult, now: u64)
    ensures
        final(conn)@ == (ConnectionView {
            dpi_info: dpi_after(old(conn)@.dpi_info, Some(dpi_result@), now),
            ..old(conn)@
        }),
{
    if conn.dpi_info.is_none() {
        conn.dpi_info = Some(
            DpiInfo {
                application: dpi_result.application.clone(),
                first_packet_time: now,
                last_update_time: now,
            },
        );
    }
}

/// The flow with the process that owns it.
pub fn enrich_with_process_info(conn: Connection, pid: u32, process_name: String) -> (r:
    Connection)
    ensures
        r@ == (ConnectionView { pid: Some(pid), process_name: Some(process_name@), ..conn@ }),
{
    let mut conn = conn;
    conn.pid = Some(pid);
    conn.process_name = Some(process_name);
    conn
}

/// The flow with the name of its service.
pub fn enrich_with_service_name(conn: Connection, service_name: String) -> (r: Connection)
    ensures
        r@ == (ConnectionView { service_name: Some(service_name@), ..conn@ }),
{
    let mut conn = conn;
    conn.service_name = Some(service_name);
    conn
}

pub open spec fn max_u64(a: u64, b: u64) -> u64 {
    if a >= b {
        a
    } else {
        b
    }
}

pub open spec fn min_u64(a: u64, b: u64) -> u64 {
    if a <= b {
        a
    } else {
        b
    }
}

/// What two records of one flow say together: the first record, with the process and
/// the service of the second where the first names none, of each counter the larger, the
/// earlier first packet and the later last one, and what inspection found for the second
/// where it found nothing for the first.
pub open spec fn merged(primary: ConnectionView, secondary: ConnectionView) -> ConnectionView {
    let takes_process = primary.pid is None && secondary.pid is Some;
    ConnectionView {
        pid: if takes_process {
            secondary.pid
        } else {
            primary.pid
        },
        process_name: if takes_process {
            secondary.process_name
        } else {
            primary.process_name
        },
        service_name: if primary.service_name is None {
            secondary.service_name
        } else {
            primary.service_name
        },
        bytes_sent: max_u64(primary.bytes_sent, secondary.bytes_sent),
        bytes_received: max_u64(primary.bytes_received, secondary.bytes_received),
        packets_sent: max_u64(primary.packets_sent, secondary.packets_sent),
        packets_received: max_u64(primary.packets_received, secondary.packets_received),
        created_at: min_u64(primary.created_at, secondary.created_at),
        last_activity: max_u64(primary.last_activity, secondary.last_activity),
        dpi_info: if primary.dpi_info is None {
            secondary.dpi_info
        } else {
            primary.dpi_info
        },
        ..primary
    }
}

fn larger(a: u64, b: u64) -> (r: u64)
    ensures
        r == max_u64(a, b),
{
    if a >= b {
        a
    } else {
        b
    }
}

/// Puts two records of one flow together.
pub fn merge_connections(primary: Connection, secondary: &Connection) -> (r: Connection)
    ensures
        r@ == merged(primary@, secondary@),
        primary@.well_timed() ==> r@.well_timed(),
        primary@.dpi_info is Some ==> r@.dpi_info == primary@.dpi_info,
{
    let mut primary = primary;
    if primary.pid.is_none() && secondary.pid.is_some() {
        primary.pid = secondary.pid;
        primary.process_name = clone_opt_string(&secondary.process_name);
    }
    if primary.service_name.is_none() && secondary.service_name.is_some() {
        primary.service_name = clone_opt_string(&secondary.service_name);
    }
    primary.bytes_sent = larger(primary.bytes_sent, secondary.bytes_sent);
    primary.bytes_received = larger(primary.bytes_received, secondary.bytes_received);
    primary.packets_sent = larger(primary.packets_sent, secondary.packets_sent);
    primary.packets_received = larger(primary.packets_received, secondary.packets_received);
    if secondary.created_at < primary.created_at {
        primary.created_at = secondary.created_at;
    }
    if secondary.last_activity > primary.last_activity {
        primary.last_activity = secondary.last_activity;
    }
    if primary.dpi_info.is_none() {
        primary.dpi_info = clone_opt_dpi(&secondary.dpi_info);
    }
    primary
}

/// Whether the two records are of one flow.
pub fn connections_match(a: &Connection, b: &Connection) -> (r: bool)
    ensures
        r == (a@.flow() == b@.flow()),
{
    a.protocol == b.protocol && a.local_addr == b.local_addr && a.remote_addr == b.remote_addr
}

/// Whether the packet belongs to the flow.
pub fn connection_matches_packet(conn: &Connection, parsed: &ParsedPacket) -> (r: bool)
    ensures
        r == (conn@.protocol == parsed@.protocol && conn@.local_addr == parsed@.local_addr
            && conn@.remote_addr == parsed@.remote_addr),
{
    conn.protocol == parsed.protocol && conn.local_addr == parsed.local_addr && conn.remote_addr
        == parsed.remote_addr
}

} // verus!
