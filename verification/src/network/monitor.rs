//! The tracker: one record for each flow, fed by packets and by the socket table.

use vstd::prelude::*;
use crate::addr::SocketAddress;
use crate::network::handshake::{
    complete_handshake, feed_handshake, pending_bytes, pending_handshake, reassembler_of,
    with_handshake, with_tls,
};
use crate::network::merge::{
    create_connection_from_packet, from_packet, merge_packet_into_connection, sat_add,
    saturating_sum, with_packet,
};
use crate::network::parser::{frame_packet, parse_frame, ParsedPacket, ParsedPacketView};
use crate::network::reassembly::STALE_AFTER_MS;
use crate::network::types::{
    ApplicationProtocol, ApplicationProtocolView, Connection, ConnectionView, DpiInfo, DpiInfoView,
    FlowId, ProtocolState, QuicInfoView, TcpState, TlsInfo, TlsInfoView, ACTIVE_THRESHOLD_MS,
};
use crate::network::{ConnectionState, Protocol};
use crate::text::{clone_opt_string, opt_text};

verus! {

/// Packets are taken from the capture no more often than once in this many milliseconds.
pub const POLL_INTERVAL_MS: u64 = 100;

/// The most packets that one poll takes in.
pub const MAX_PACKETS_PER_POLL: usize = 100;

/// A flow and the number that it got when it was first seen.
#[derive(Debug)]
pub struct TrackedFlow {
    pub connection: Connection,
    pub index: u64,
}

/// A `TrackedFlow` as a value.
pub struct TrackedFlowView {
    pub connection: ConnectionView,
    pub index: u64,
}

impl View for TrackedFlow {
    type V = TrackedFlowView;

    open spec fn view(&self) -> TrackedFlowView {
        TrackedFlowView { connection: self.connection@, index: self.index }
    }
}

/// The flows of `v` as values, in the same order.
pub open spec fn flow_views(v: Seq<TrackedFlow>) -> Seq<TrackedFlowView> {
    Seq::new(v.len(), |i: int| v[i]@)
}

/// Whether a flow of the identity `id` is among the flows.
pub open spec fn knows(flows: Seq<TrackedFlowView>, id: FlowId) -> bool {
    exists|i: int| 0 <= i < flows.len() && (#[trigger] flows[i]).connection.flow() == id
}

/// The place of the flow of the identity `id` among the flows.
pub open spec fn place_of(flows: Seq<TrackedFlowView>, id: FlowId) -> int {
    choose|i: int| 0 <= i < flows.len() && (#[trigger] flows[i]).connection.flow() == id
}

/// No two of the flows have one identity.
pub open spec fn distinct(flows: Seq<TrackedFlowView>) -> bool {
    forall|i: int, j: int|
        0 <= i < j < flows.len() ==> (#[trigger] flows[i]).connection.flow() != (
        #[trigger] flows[j]).connection.flow()
}

/// The flows stand in the order of their numbers, which all lie below `next`.
pub open spec fn in_order(flows: Seq<TrackedFlowView>, next: u64) -> bool {
    &&& forall|i: int, j: int|
        0 <= i < j < flows.len() ==> (#[trigger] flows[i]).index < (#[trigger] flows[j]).index
    &&& forall|i: int| 0 <= i < flows.len() ==> (#[trigger] flows[i]).index < next
}

/// The identity of the flow that a packet belongs to.
pub open spec fn packet_flow(p: ParsedPacketView) -> FlowId {
    FlowId { protocol: p.protocol, local_addr: p.local_addr, remote_addr: p.remote_addr }
}

/// A known flow after one more of its packets was seen at the time `now`.
pub open spec fn stepped(c: ConnectionView, p: ParsedPacketView, now: u64) -> ConnectionView {
    with_handshake(with_packet(c, p, now), p, now)
}

/// Whether the socket table lists a socket of the flow `id`.
pub open spec fn listed(entries: Seq<crate::network::ConnectionView>, id: FlowId) -> bool {
    exists|i: int| 0 <= i < entries.len() && (#[trigger] entries[i]).flow() == id
}

/// A flow after the socket table was found to list it as `e`. The table's word on the
/// state of a TCP flow stands, unless the table does not know the state; the process is
/// taken from the table where the flow named none. Nothing else changes.
pub open spec fn fused(c: ConnectionView, e: crate::network::ConnectionView) -> ConnectionView {
    let takes_process = c.pid is None && e.pid is Some;
    ConnectionView {
        protocol_state: match c.protocol_state {
            ProtocolState::Tcp(s) => if e.state == ConnectionState::Unknown {
                ProtocolState::Tcp(s)
            } else {
                ProtocolState::Tcp(e.state.tcp_state())
            },
            other => other,
        },
        pid: if takes_process {
            e.pid
        } else {
            c.pid
        },
        process_name: if takes_process {
            e.process_name
        } else {
            c.process_name
        },
        ..c
    }
}

/// The flow that is made at the time `now` for a socket that the table lists and of
/// which no packet was seen: nothing is counted on it.
pub open spec fn from_entry(e: crate::network::ConnectionView, now: u64) -> ConnectionView {
    ConnectionView {
        protocol: e.protocol.kind(),
        local_addr: e.local_addr,
        remote_addr: e.remote_addr,
        remote_host: None,
        protocol_state: match e.protocol {
            Protocol::TCP => ProtocolState::Tcp(e.state.tcp_state()),
            Protocol::UDP => ProtocolState::Udp,
        },
        pid: e.pid,
        process_name: e.process_name,
        bytes_sent: 0,
        bytes_received: 0,
        packets_sent: 0,
        packets_received: 0,
        created_at: now,
        last_activity: now,
        service_name: None,
        dpi_info: None,
        rtt_estimate: None,
    }
}

/// A flow is let go once it is closed or has been idle for five minutes.
pub open spec fn expired(c: ConnectionView, now: u64) -> bool {
    c.protocol_state == ProtocolState::Tcp(TcpState::Closed) || c.idle(now) >= ACTIVE_THRESHOLD_MS
}

/// A flow stays while the socket table lists it or it has not expired.
pub open spec fn keeps(
    c: ConnectionView,
    entries: Seq<crate::network::ConnectionView>,
    now: u64,
) -> bool {
    listed(entries, c.flow()) || !expired(c, now)
}

/// Whether the flow holds a reassembler that saw no fragment for more than thirty
/// seconds and has not read its handshake in full.
pub open spec fn has_stale_reassembler(c: ConnectionView, now: u64) -> bool {
    match c.dpi_info {
        Some(DpiInfoView { application: ApplicationProtocolView::Quic(info), .. }) =>
            match info.crypto_reassembler {
            Some(r) => r.tls_info is None && now - r.updated_at > STALE_AFTER_MS,
            None => false,
        },
        _ => false,
    }
}

/// The flow without its reassembler, where that is stale.
pub open spec fn refreshed(c: ConnectionView, now: u64) -> ConnectionView {
    match c.dpi_info {
        Some(
            DpiInfoView {
                application: ApplicationProtocolView::Quic(info),
                first_packet_time,
                last_update_time,
            },
        ) if has_stale_reassembler(c, now) => ConnectionView {
            dpi_info: Some(
                DpiInfoView {
                    application: ApplicationProtocolView::Quic(
                        QuicInfoView { crypto_reassembler: None, ..info },
                    ),
                    first_packet_time,
                    last_update_time,
                },
            ),
            ..c
        },
        _ => c,
    }
}

/// The flows that stay after a reading of the socket table, in their order, each
/// without its reassembler where that is stale.
pub open spec fn swept(
    flows: Seq<TrackedFlowView>,
    entries: Seq<crate::network::ConnectionView>,
    now: u64,
) -> Seq<TrackedFlowView>
    decreases flows.len(),
{
    if flows.len() == 0 {
        Seq::empty()
    } else {
        let rest = swept(flows.drop_last(), entries, now);
        let last = flows.last();
        if keeps(last.connection, entries, now) {
            rest.push(
                TrackedFlowView { connection: refreshed(last.connection, now), index: last.index },
            )
        } else {
            rest
        }
    }
}

/// Whether a flow of which both ends are loopback addresses is left out of what is shown.
pub open spec fn hidden(c: ConnectionView, filter_localhost: bool) -> bool {
    filter_localhost && c.local_addr.ip.is_loopback() && c.remote_addr.ip.is_loopback()
}

/// The flows that are shown, in their order.
pub open spec fn shown(flows: Seq<TrackedFlowView>, filter_localhost: bool) -> Seq<ConnectionView>
    decreases flows.len(),
{
    if flows.len() == 0 {
        Seq::empty()
    } else {
        let rest = shown(flows.drop_last(), filter_localhost);
        if hidden(flows.last().connection, filter_localhost) {
            rest
        } else {
            rest.push(flows.last().connection)
        }
    }
}

/// The number of flows that hold a reassembler.
pub open spec fn reassembler_count(flows: Seq<TrackedFlowView>) -> nat
    decreases flows.len(),
{
    if flows.len() == 0 {
        0
    } else {
        reassembler_count(flows.drop_last()) + if crate::network::handshake::reassembler_of(
            flows.last().connection,
        ) is Some {
            1nat
        } else {
            0nat
        }
    }
}

/// The tracker as a value.
pub struct MonitorView {
    pub interface: Option<Seq<char>>,
    /// The flows, in the order in which they were first seen.
    pub flows: Seq<TrackedFlowView>,
    /// The number that the next new flow gets.
    pub next_index: u64,
    pub collect_process_info: bool,
    pub filter_localhost: bool,
    /// The time of the last poll, in milliseconds.
    pub last_packet_check: u64,
    /// The packets that were dropped since the socket table was last read.
    pub dropped_packets: u64,
}

impl MonitorView {
    /// What holds of every tracker: each identity has one flow at most, and the flows
    /// stand in the order of their numbers.
    pub open spec fn valid(self) -> bool {
        &&& distinct(self.flows)
        &&& in_order(self.flows, self.next_index)
    }

    /// The tracker with one more new flow, which gets the next number. Where the numbers
    /// have run out, the flow is not taken in and counts as dropped.
    pub open spec fn with_new_flow(self, c: ConnectionView) -> MonitorView {
        if self.next_index < u64::MAX {
            MonitorView {
                flows: self.flows.push(TrackedFlowView { connection: c, index: self.next_index }),
                next_index: (self.next_index + 1) as u64,
                ..self
            }
        } else {
            MonitorView { dropped_packets: sat_add(self.dropped_packets, 1), ..self }
        }
    }

    /// The tracker with the flow at place `i` replaced by `c`.
    pub open spec fn with_flow_at(self, i: int, c: ConnectionView) -> MonitorView {
        MonitorView {
            flows: self.flows.update(
                i,
                TrackedFlowView { connection: c, index: self.flows[i].index },
            ),
            ..self
        }
    }

    /// The tracker after the packet `p` was seen at the time `now`: the packet is counted
    /// on its flow, which is made where the packet is the first of it.
    pub open spec fn with_packet(self, p: ParsedPacketView, now: u64) -> MonitorView {
        if knows(self.flows, packet_flow(p)) {
            let i = place_of(self.flows, packet_flow(p));
            self.with_flow_at(i, stepped(self.flows[i].connection, p, now))
        } else {
            self.with_new_flow(from_packet(p, now))
        }
    }

    /// The tracker after the frame `data` was captured at the time `now`. A frame that
    /// carries no packet to look at is counted as dropped.
    pub open spec fn with_frame(self, data: Seq<u8>, now: u64) -> MonitorView {
        match frame_packet(data) {
            Some(p) => self.with_packet(p, now),
            None => MonitorView { dropped_packets: sat_add(self.dropped_packets, 1), ..self },
        }
    }

    /// The tracker after each of the frames was captured, in turn, at the time `now`.
    pub open spec fn with_frames(self, frames: Seq<Seq<u8>>, now: u64) -> MonitorView
        decreases frames.len(),
    {
        if frames.len() == 0 {
            self
        } else {
            self.with_frames(frames.drop_last(), now).with_frame(frames.last(), now)
        }
    }

    /// Whether a poll is due at the time `now`.
    pub open spec fn poll_is_due(self, now: u64) -> bool {
        now >= self.last_packet_check && now - self.last_packet_check >= POLL_INTERVAL_MS
    }

    /// The tracker after a poll at the time `now` that found `frames`: nothing happens
    /// where no poll is due; else the first hundred of the frames are taken in.
    pub open spec fn polled(self, frames: Seq<Seq<u8>>, now: u64) -> MonitorView {
        if self.poll_is_due(now) {
            (MonitorView { last_packet_check: now, ..self }).with_frames(
                if frames.len() > MAX_PACKETS_PER_POLL {
                    frames.subrange(0, MAX_PACKETS_PER_POLL as int)
                } else {
                    frames
                },
                now,
            )
        } else {
            self
        }
    }

    /// The tracker after the handshake of the flow `id` was read in full and told `tls`.
    /// Nothing changes where no such flow is known.
    pub open spec fn with_tls_for(self, id: FlowId, tls: TlsInfoView) -> MonitorView {
        if knows(self.flows, id) {
            let i = place_of(self.flows, id);
            self.with_flow_at(i, with_tls(self.flows[i].connection, tls))
        } else {
            self
        }
    }

    /// The handshake bytes of the flow `id` that wait to be read.
    pub open spec fn pending_for(self, id: FlowId) -> Option<Seq<u8>> {
        if knows(self.flows, id) {
            pending_bytes(self.flows[place_of(self.flows, id)].connection)
        } else {
            None
        }
    }

    /// The tracker after the socket table was found to list `e` at the time `now`.
    pub open spec fn with_entry(self, e: crate::network::ConnectionView, now: u64) -> MonitorView {
        if knows(self.flows, e.flow()) {
            let i = place_of(self.flows, e.flow());
            self.with_flow_at(i, fused(self.flows[i].connection, e))
        } else {
            self.with_new_flow(from_entry(e, now))
        }
    }

    /// The tracker after each of the table's sockets was looked at, in turn.
    pub open spec fn with_entries(
        self,
        entries: Seq<crate::network::ConnectionView>,
        now: u64,
    ) -> MonitorView
        decreases entries.len(),
    {
        if entries.len() == 0 {
            self
        } else {
            self.with_entries(entries.drop_last(), now).with_entry(entries.last(), now)
        }
    }

    /// The tracker after a reading of the socket table at the time `now`: each socket is
    /// fused into its flow; then the flows that the table does not list and that have
    /// expired are let go; the count of dropped packets starts anew.
    pub open spec fn after_snapshot(
        self,
        entries: Seq<crate::network::ConnectionView>,
        now: u64,
    ) -> MonitorView {
        let fusion = self.with_entries(entries, now);
        MonitorView {
            flows: swept(fusion.flows, entries, now),
            dropped_packets: 0,
            ..fusion
        }
    }
}

/// Whether two records of one flow name applications of one kind.
pub open spec fn same_kind(a: ApplicationProtocolView, b: ApplicationProtocolView) -> bool {
    match a {
        ApplicationProtocolView::Http(_) => b is Http,
        ApplicationProtocolView::Https(_) => b is Https,
        ApplicationProtocolView::Dns(_) => b is Dns,
        ApplicationProtocolView::Ssh => b is Ssh,
        ApplicationProtocolView::Quic(_) => b is Quic,
    }
}

/// Whether `later` is a later record of the flow of which `earlier` is a record: the
/// identity and the time of the first packet are the same, no counter went down, and what
/// inspection found was neither taken away nor replaced by something of another kind.
pub open spec fn carries_on(earlier: ConnectionView, later: ConnectionView) -> bool {
    &&& later.flow() == earlier.flow()
    &&& later.created_at == earlier.created_at
    &&& later.bytes_sent >= earlier.bytes_sent
    &&& later.bytes_received >= earlier.bytes_received
    &&& later.packets_sent >= earlier.packets_sent
    &&& later.packets_received >= earlier.packets_received
    &&& match earlier.dpi_info {
        Some(before) => match later.dpi_info {
            Some(after) => same_kind(before.application, after.application)
                && after.first_packet_time == before.first_packet_time && after.last_update_time
                >= before.last_update_time && (!(before.application is Quic)
                ==> after.application == before.application),
            None => false,
        },
        None => true,
    }
}

/// Whether `f` carries on one of the flows, under the same number.
pub open spec fn continues(flows: Seq<TrackedFlowView>, f: TrackedFlowView) -> bool {
    exists|i: int|
        0 <= i < flows.len() && (#[trigger] flows[i]).index == f.index && carries_on(
            flows[i].connection,
            f.connection,
        )
}

/// Whether the tracker `b` can have come from the tracker `a`: each flow of `b` either
/// carries on a flow of `a` under the same number, or has a number that `a` had not
/// given out yet.
pub open spec fn extends(a: MonitorView, b: MonitorView) -> bool {
    &&& b.next_index >= a.next_index
    &&& forall|j: int|
        0 <= j < b.flows.len() ==> (#[trigger] b.flows[j]).index >= a.next_index || continues(
            a.flows,
            b.flows[j],
        )
}

pub proof fn lemma_carries_on_reflexive(c: ConnectionView)
    ensures
        carries_on(c, c),
{
}

pub proof fn lemma_carries_on_transitive(a: ConnectionView, b: ConnectionView, c: ConnectionView)
    requires
        carries_on(a, b),
        carries_on(b, c),
    ensures
        carries_on(a, c),
{
}

pub proof fn lemma_extends_reflexive(a: MonitorView)
    ensures
        extends(a, a),
{
    assert forall|j: int| 0 <= j < a.flows.len() implies (#[trigger] a.flows[j]).index
        >= a.next_index || continues(a.flows, a.flows[j]) by {
        lemma_carries_on_reflexive(a.flows[j].connection);
    }
}

/// What can come from what came from a tracker can come from that tracker.
pub proof fn lemma_extends_transitive(a: MonitorView, b: MonitorView, c: MonitorView)
    requires
        extends(a, b),
        extends(b, c),
    ensures
        extends(a, c),
{
    assert forall|j: int| 0 <= j < c.flows.len() implies (#[trigger] c.flows[j]).index
        >= a.next_index || continues(a.flows, c.flows[j]) by {
        let f = c.flows[j];
        if f.index < a.next_index {
            assert(continues(b.flows, f));
            let i = choose|i: int|
                0 <= i < b.flows.len() && (#[trigger] b.flows[i]).index == f.index && carries_on(
                    b.flows[i].connection,
                    f.connection,
                );
            assert(continues(a.flows, b.flows[i]));
            let k = choose|k: int|
                0 <= k < a.flows.len() && (#[trigger] a.flows[k]).index == b.flows[i].index
                    && carries_on(a.flows[k].connection, b.flows[i].connection);
            lemma_carries_on_transitive(
                a.flows[k].connection,
                b.flows[i].connection,
                f.connection,
            );
        }
    }
}

/// In a valid tracker the flow of an identity stands at one place only.
pub proof fn lemma_place_of(flows: Seq<TrackedFlowView>, id: FlowId, i: int)
    requires
        distinct(flows),
        0 <= i < flows.len(),
        flows[i].connection.flow() == id,
    ensures
        knows(flows, id),
        place_of(flows, id) == i,
{
    let k = place_of(flows, id);
    if k < i {
        assert(flows[k].connection.flow() != flows[i].connection.flow());
    }
    if i < k {
        assert(flows[i].connection.flow() != flows[k].connection.flow());
    }
}

/// Replacing a flow by a later record of it leaves the tracker valid.
#[verifier::rlimit(50)]
pub proof fn lemma_with_flow_at(m: MonitorView, i: int, c: ConnectionView)
    requires
        m.valid(),
        0 <= i < m.flows.len(),
        carries_on(m.flows[i].connection, c),
    ensures
        m.with_flow_at(i, c).valid(),
        extends(m, m.with_flow_at(i, c)),
{
    let n = m.with_flow_at(i, c);
    assert forall|a: int, b: int| 0 <= a < b < n.flows.len() implies (
    #[trigger] n.flows[a]).connection.flow() != (#[trigger] n.flows[b]).connection.flow()
        && n.flows[a].index < n.flows[b].index by {
        assert(m.flows[a].connection.flow() != m.flows[b].connection.flow());
        assert(m.flows[a].index < m.flows[b].index);
    }
    assert forall|j: int| 0 <= j < n.flows.len() implies (#[trigger] n.flows[j]).index < n.next_index
        && (n.flows[j].index >= m.next_index || continues(m.flows, n.flows[j])) by {
        assert(m.flows[j].index < m.next_index);
        if j != i {
            lemma_carries_on_reflexive(m.flows[j].connection);
        }
        assert(m.flows[j].index == n.flows[j].index && carries_on(
            m.flows[j].connection,
            n.flows[j].connection,
        ));
    }
}

/// Taking in a flow of an identity that is not known leaves the tracker valid.
#[verifier::rlimit(50)]
pub proof fn lemma_with_new_flow(m: MonitorView, c: ConnectionView)
    requires
        m.valid(),
        !knows(m.flows, c.flow()),
    ensures
        m.with_new_flow(c).valid(),
        extends(m, m.with_new_flow(c)),
{
    let n = m.with_new_flow(c);
    if m.next_index < u64::MAX {
        assert forall|a: int, b: int| 0 <= a < b < n.flows.len() implies (
        #[trigger] n.flows[a]).connection.flow() != (#[trigger] n.flows[b]).connection.flow()
            && n.flows[a].index < n.flows[b].index by {
            if b < m.flows.len() {
                assert(m.flows[a].connection.flow() != m.flows[b].connection.flow());
                assert(m.flows[a].index < m.flows[b].index);
            } else {
                assert(m.flows[a].index < m.next_index);
                assert(m.flows[a].connection.flow() != c.flow());
            }
        }
        assert forall|j: int| 0 <= j < n.flows.len() implies (#[trigger] n.flows[j]).index
            < n.next_index && (n.flows[j].index >= m.next_index || continues(
            m.flows,
            n.flows[j],
        )) by {
            if j < m.flows.len() {
                assert(m.flows[j].index < m.next_index);
                lemma_carries_on_reflexive(m.flows[j].connection);
                assert(m.flows[j].index == n.flows[j].index);
            }
        }
    } else {
        lemma_extends_reflexive(m);
        assert(n.flows == m.flows);
    }
}

/// Seeing a packet leaves the tracker valid, and every flow that was known goes on under
/// its number.
pub proof fn lemma_with_packet(m: MonitorView, p: ParsedPacketView, now: u64)
    requires
        m.valid(),
    ensures
        m.with_packet(p, now).valid(),
        extends(m, m.with_packet(p, now)),
{
    if knows(m.flows, packet_flow(p)) {
        let i = place_of(m.flows, packet_flow(p));
        lemma_with_flow_at(m, i, stepped(m.flows[i].connection, p, now));
    } else {
        lemma_with_new_flow(m, from_packet(p, now));
    }
}

pub proof fn lemma_with_frames(m: MonitorView, frames: Seq<Seq<u8>>, now: u64)
    requires
        m.valid(),
    ensures
        m.with_frames(frames, now).valid(),
        extends(m, m.with_frames(frames, now)),
    decreases frames.len(),
{
    if frames.len() == 0 {
        lemma_extends_reflexive(m);
    } else {
        lemma_with_frames(m, frames.drop_last(), now);
        let mid = m.with_frames(frames.drop_last(), now);
        let end = mid.with_frame(frames.last(), now);
        match frame_packet(frames.last()) {
            Some(p) => {
                lemma_with_packet(mid, p, now);
            },
            None => {
                lemma_extends_reflexive(mid);
                assert(end.flows == mid.flows);
            },
        }
        lemma_extends_transitive(m, mid, end);
    }
}

/// A poll leaves the tracker valid, and every flow that was known goes on under its
/// number.
pub proof fn lemma_polled(m: MonitorView, frames: Seq<Seq<u8>>, now: u64)
    requires
        m.valid(),
    ensures
        m.polled(frames, now).valid(),
        extends(m, m.polled(frames, now)),
{
    if m.poll_is_due(now) {
        let start = MonitorView { last_packet_check: now, ..m };
        let taken = if frames.len() > MAX_PACKETS_PER_POLL {
            frames.subrange(0, MAX_PACKETS_PER_POLL as int)
        } else {
            frames
        };
        lemma_with_frames(start, taken, now);
        lemma_extends_reflexive(m);
        assert(extends(m, start));
        lemma_extends_transitive(m, start, start.with_frames(taken, now));
    } else {
        lemma_extends_reflexive(m);
    }
}

pub proof fn lemma_with_tls_carries_on(c: ConnectionView, tls: TlsInfoView)
    ensures
        carries_on(c, with_tls(c, tls)),
{
}

/// Noting what a handshake told leaves the tracker valid.
pub proof fn lemma_with_tls_for(m: MonitorView, id: FlowId, tls: TlsInfoView)
    requires
        m.valid(),
    ensures
        m.with_tls_for(id, tls).valid(),
        extends(m, m.with_tls_for(id, tls)),
{
    if knows(m.flows, id) {
        let i = place_of(m.flows, id);
        lemma_with_tls_carries_on(m.flows[i].connection, tls);
        lemma_with_flow_at(m, i, with_tls(m.flows[i].connection, tls));
    } else {
        lemma_extends_reflexive(m);
    }
}

pub proof fn lemma_with_entry(m: MonitorView, e: crate::network::ConnectionView, now: u64)
    requires
        m.valid(),
    ensures
        m.with_entry(e, now).valid(),
        extends(m, m.with_entry(e, now)),
{
    if knows(m.flows, e.flow()) {
        let i = place_of(m.flows, e.flow());
        lemma_with_flow_at(m, i, fused(m.flows[i].connection, e));
    } else {
        lemma_with_new_flow(m, from_entry(e, now));
    }
}

pub proof fn lemma_with_entries(
    m: MonitorView,
    entries: Seq<crate::network::ConnectionView>,
    now: u64,
)
    requires
        m.valid(),
    ensures
        m.with_entries(entries, now).valid(),
        extends(m, m.with_entries(entries, now)),
    decreases entries.len(),
{
    if entries.len() == 0 {
        lemma_extends_reflexive(m);
    } else {
        lemma_with_entries(m, entries.drop_last(), now);
        let mid = m.with_entries(entries.drop_last(), now);
        lemma_with_entry(mid, entries.last(), now);
        lemma_extends_transitive(m, mid, mid.with_entry(entries.last(), now));
    }
}

/// Each flow that stays after a sweep carries on one of the flows under its number, and
/// the flows that stay are distinct and in order.
#[verifier::rlimit(50)]
pub proof fn lemma_swept(
    flows: Seq<TrackedFlowView>,
    next: u64,
    entries: Seq<crate::network::ConnectionView>,
    now: u64,
)
    requires
        distinct(flows),
        in_order(flows, next),
    ensures
        distinct(swept(flows, entries, now)),
        in_order(swept(flows, entries, now), next),
        forall|j: int|
            0 <= j < swept(flows, entries, now).len() ==> continues(
                flows,
                #[trigger] swept(flows, entries, now)[j],
            ),
    decreases flows.len(),
{
    if flows.len() > 0 {
        let front = flows.drop_last();
        let last = flows.last();
        assert forall|a: int, b: int| 0 <= a < b < front.len() implies (
        #[trigger] front[a]).connection.flow() != (#[trigger] front[b]).connection.flow()
            && front[a].index < front[b].index by {
            assert(flows[a].connection.flow() != flows[b].connection.flow());
            assert(flows[a].index < flows[b].index);
        }
        assert forall|a: int| 0 <= a < front.len() implies (#[trigger] front[a]).index < next by {
            assert(flows[a].index < next);
        }
        lemma_swept(front, next, entries, now);
        let rest = swept(front, entries, now);
        let all = swept(flows, entries, now);
        assert forall|j: int| 0 <= j < rest.len() implies continues(flows, #[trigger] rest[j])
            && (#[trigger] rest[j]).index < last.index && rest[j].connection.flow()
            != last.connection.flow() by {
            assert(continues(front, rest[j]));
            let k = choose|k: int|
                0 <= k < front.len() && (#[trigger] front[k]).index == rest[j].index
                    && carries_on(front[k].connection, rest[j].connection);
            assert(flows[k] == front[k]);
            assert(flows[k].index < flows[flows.len() - 1].index);
            assert(flows[k].connection.flow() != flows[flows.len() - 1].connection.flow());
        }
        if keeps(last.connection, entries, now) {
            let kept = TrackedFlowView {
                connection: refreshed(last.connection, now),
                index: last.index,
            };
            assert(all == rest.push(kept));
            assert(flows[flows.len() - 1] == last);
            assert(carries_on(last.connection, kept.connection));
            assert(continues(flows, kept));
            assert forall|a: int, b: int| 0 <= a < b < all.len() implies (
            #[trigger] all[a]).connection.flow() != (#[trigger] all[b]).connection.flow()
                && all[a].index < all[b].index by {
                if b < rest.len() {
                    assert(rest[a].index < rest[b].index);
                    assert(rest[a].connection.flow() != rest[b].connection.flow());
                } else {
                    assert(rest[a].index < last.index);
                }
            }
            assert forall|j: int| 0 <= j < all.len() implies (#[trigger] all[j]).index < next
                && continues(flows, all[j]) by {
                if j < rest.len() {
                    assert(all[j] == rest[j]);
                    assert(rest[j].index < next);
                } else {
                    assert(flows[flows.len() - 1].index < next);
                }
            }
        }
    }
}

/// A reading of the socket table leaves the tracker valid, and every flow that stays
/// goes on under its number.
pub proof fn lemma_after_snapshot(
    m: MonitorView,
    entries: Seq<crate::network::ConnectionView>,
    now: u64,
)
    requires
        m.valid(),
    ensures
        m.after_snapshot(entries, now).valid(),
        extends(m, m.after_snapshot(entries, now)),
{
    lemma_with_entries(m, entries, now);
    let fusion = m.with_entries(entries, now);
    lemma_swept(fusion.flows, fusion.next_index, entries, now);
    let end = m.after_snapshot(entries, now);
    assert(extends(fusion, end)) by {
        assert forall|j: int| 0 <= j < end.flows.len() implies (#[trigger] end.flows[j]).index
            >= fusion.next_index || continues(fusion.flows, end.flows[j]) by {
            assert(continues(fusion.flows, swept(fusion.flows, entries, now)[j]));
        }
    }
    lemma_extends_transitive(m, fusion, end);
}

/// The order of the flows is stable: where a flow stood before another, and still goes
/// on under its number in a tracker that came from the first, it stands there before any
/// flow of the other's identity.
pub proof fn lemma_order_is_stable(
    a: MonitorView,
    b: MonitorView,
    first: int,
    second: int,
    first_later: int,
    second_later: int,
)
    requires
        a.valid(),
        b.valid(),
        extends(a, b),
        0 <= first < second < a.flows.len(),
        0 <= first_later < b.flows.len(),
        0 <= second_later < b.flows.len(),
        b.flows[first_later].index == a.flows[first].index,
        b.flows[second_later].connection.flow() == a.flows[second].connection.flow(),
    ensures
        first_later < second_later,
{
    let f = b.flows[second_later];
    assert(a.flows[first].index < a.flows[second].index);
    assert(a.flows[first].index < a.next_index);
    if f.index < a.next_index {
        assert(continues(a.flows, f));
        let k = choose|k: int|
            0 <= k < a.flows.len() && (#[trigger] a.flows[k]).index == f.index && carries_on(
                a.flows[k].connection,
                f.connection,
            );
        if k < second {
            assert(a.flows[k].connection.flow() != a.flows[second].connection.flow());
        }
        if second < k {
            assert(a.flows[second].connection.flow() != a.flows[k].connection.flow());
        }
    }
    assert(b.flows[first_later].index < f.index);
    if second_later < first_later {
        assert(b.flows[second_later].index < b.flows[first_later].index);
    }
}


/// What is shown of the first `n` flows stands, in the same order, at the start of what
/// is shown of all of them.
pub proof fn lemma_shown_prefix(flows: Seq<TrackedFlowView>, filter_localhost: bool, n: int)
    requires
        0 <= n <= flows.len(),
    ensures
        shown(flows.subrange(0, n), filter_localhost).len() <= shown(
            flows,
            filter_localhost,
        ).len(),
        shown(flows, filter_localhost).subrange(
            0,
            shown(flows.subrange(0, n), filter_localhost).len() as int,
        ) == shown(flows.subrange(0, n), filter_localhost),
    decreases flows.len(),
{
    let all = shown(flows, filter_localhost);
    if n < flows.len() {
        let front = flows.drop_last();
        assert(front.subrange(0, n) =~= flows.subrange(0, n));
        lemma_shown_prefix(front, filter_localhost, n);
        let part = shown(flows.subrange(0, n), filter_localhost);
        assert(all.subrange(0, part.len() as int) =~= shown(front, filter_localhost).subrange(
            0,
            part.len() as int,
        ));
    } else {
        assert(flows.subrange(0, n) =~= flows);
        assert(all.subrange(0, all.len() as int) =~= all);
    }
}

/// The place at which the flow at place `i` is shown: as many flows as are shown of
/// those before it stand before it.
pub open spec fn shown_place(flows: Seq<TrackedFlowView>, filter_localhost: bool, i: int) -> int {
    shown(flows.subrange(0, i), filter_localhost).len() as int
}

/// What is shown keeps the order of the flows: of two flows that are shown, the one that
/// stands first among the flows is shown first.
#[verifier::rlimit(50)]
pub proof fn lemma_shown_keeps_order(
    flows: Seq<TrackedFlowView>,
    filter_localhost: bool,
    i: int,
    j: int,
)
    requires
        0 <= i < j < flows.len(),
        !hidden(flows[i].connection, filter_localhost),
        !hidden(flows[j].connection, filter_localhost),
    ensures
        0 <= shown_place(flows, filter_localhost, i) < shown_place(flows, filter_localhost, j)
            < shown(flows, filter_localhost).len(),
        shown(flows, filter_localhost)[shown_place(flows, filter_localhost, i)]
            == flows[i].connection,
        shown(flows, filter_localhost)[shown_place(flows, filter_localhost, j)]
            == flows[j].connection,
{
    let all = shown(flows, filter_localhost);
    let upto_i = flows.subrange(0, i + 1);
    let upto_j = flows.subrange(0, j + 1);
    assert(upto_i.drop_last() =~= flows.subrange(0, i));
    assert(upto_j.drop_last() =~= flows.subrange(0, j));
    assert(upto_i.last() == flows[i]);
    assert(upto_j.last() == flows[j]);
    let pi = shown_place(flows, filter_localhost, i);
    let pj = shown_place(flows, filter_localhost, j);
    assert(shown(upto_i, filter_localhost) == shown(flows.subrange(0, i), filter_localhost).push(
        flows[i].connection,
    ));
    assert(shown(upto_j, filter_localhost) == shown(flows.subrange(0, j), filter_localhost).push(
        flows[j].connection,
    ));
    lemma_shown_prefix(flows, filter_localhost, i + 1);
    lemma_shown_prefix(flows, filter_localhost, j + 1);
    assert(all.subrange(0, pi + 1)[pi] == shown(upto_i, filter_localhost)[pi]);
    assert(all.subrange(0, pj + 1)[pj] == shown(upto_j, filter_localhost)[pj]);
    let before_j = flows.subrange(0, j);
    assert(before_j.subrange(0, i + 1) =~= upto_i);
    lemma_shown_prefix(before_j, filter_localhost, i + 1);
}

/// Whether each of the flows was first seen no later than its last packet came, and no
/// later than the time `now`.
pub open spec fn timed_until(flows: Seq<TrackedFlowView>, now: u64) -> bool {
    forall|i: int|
        0 <= i < flows.len() ==> (#[trigger] flows[i]).connection.well_timed()
            && flows[i].connection.created_at <= now
}

/// A packet that is seen no earlier than the flows were first seen leaves the last
/// activity of every flow at or behind its first.
pub proof fn lemma_with_packet_keeps_time(m: MonitorView, p: ParsedPacketView, now: u64)
    requires
        timed_until(m.flows, now),
    ensures
        timed_until(m.with_packet(p, now).flows, now),
{
    let n = m.with_packet(p, now);
    assert forall|i: int| 0 <= i < n.flows.len() implies (
    #[trigger] n.flows[i]).connection.well_timed() && n.flows[i].connection.created_at <= now by {
        if i < m.flows.len() {
            assert(m.flows[i].connection.well_timed());
        }
    }
}

pub proof fn lemma_with_frames_keeps_time(m: MonitorView, frames: Seq<Seq<u8>>, now: u64)
    requires
        timed_until(m.flows, now),
    ensures
        timed_until(m.with_frames(frames, now).flows, now),
    decreases frames.len(),
{
    if frames.len() > 0 {
        lemma_with_frames_keeps_time(m, frames.drop_last(), now);
        let mid = m.with_frames(frames.drop_last(), now);
        match frame_packet(frames.last()) {
            Some(p) => {
                lemma_with_packet_keeps_time(mid, p, now);
            },
            None => {},
        }
    }
}

/// A poll at a time that is no earlier than the flows were first seen leaves the last
/// activity of every flow at or behind its first.
pub proof fn lemma_polled_keeps_time(m: MonitorView, frames: Seq<Seq<u8>>, now: u64)
    requires
        timed_until(m.flows, now),
    ensures
        timed_until(m.polled(frames, now).flows, now),
{
    if m.poll_is_due(now) {
        let start = MonitorView { last_packet_check: now, ..m };
        let taken = if frames.len() > MAX_PACKETS_PER_POLL {
            frames.subrange(0, MAX_PACKETS_PER_POLL as int)
        } else {
            frames
        };
        lemma_with_frames_keeps_time(start, taken, now);
    }
}

pub proof fn lemma_with_entries_keeps_time(
    m: MonitorView,
    entries: Seq<crate::network::ConnectionView>,
    now: u64,
)
    requires
        timed_until(m.flows, now),
    ensures
        timed_until(m.with_entries(entries, now).flows, now),
    decreases entries.len(),
{
    if entries.len() > 0 {
        lemma_with_entries_keeps_time(m, entries.drop_last(), now);
        let mid = m.with_entries(entries.drop_last(), now);
        let end = mid.with_entry(entries.last(), now);
        assert forall|i: int| 0 <= i < end.flows.len() implies (
        #[trigger] end.flows[i]).connection.well_timed() && end.flows[i].connection.created_at
            <= now by {
            if i < mid.flows.len() {
                assert(mid.flows[i].connection.well_timed());
            }
        }
    }
}

pub proof fn lemma_swept_keeps_time(
    flows: Seq<TrackedFlowView>,
    entries: Seq<crate::network::ConnectionView>,
    now: u64,
)
    requires
        timed_until(flows, now),
    ensures
        timed_until(swept(flows, entries, now), now),
    decreases flows.len(),
{
    if flows.len() > 0 {
        let front = flows.drop_last();
        assert forall|i: int| 0 <= i < front.len() implies (
        #[trigger] front[i]).connection.well_timed() && front[i].connection.created_at <= now by {
            assert(flows[i].connection.well_timed());
        }
        lemma_swept_keeps_time(front, entries, now);
        let rest = swept(front, entries, now);
        let all = swept(flows, entries, now);
        assert(flows[flows.len() - 1].connection.well_timed());
        assert forall|i: int| 0 <= i < all.len() implies (
        #[trigger] all[i]).connection.well_timed() && all[i].connection.created_at <= now by {
            if i < rest.len() {
                assert(rest[i].connection.well_timed());
            }
        }
    }
}

/// A reading of the socket table at a time that is no earlier than the flows were first
/// seen leaves the last activity of every flow at or behind its first.
pub proof fn lemma_after_snapshot_keeps_time(
    m: MonitorView,
    entries: Seq<crate::network::ConnectionView>,
    now: u64,
)
    requires
        timed_until(m.flows, now),
    ensures
        timed_until(m.after_snapshot(entries, now).flows, now),
{
    lemma_with_entries_keeps_time(m, entries, now);
    lemma_swept_keeps_time(m.with_entries(entries, now).flows, entries, now);
}

/// The sockets of `v` as values, in the same order.
pub open spec fn entry_views(v: Seq<crate::network::Connection>) -> Seq<
    crate::network::ConnectionView,
> {
    Seq::new(v.len(), |i: int| v[i]@)
}

/// The frames of `v` as values, in the same order.
pub open spec fn frame_views(v: Seq<Vec<u8>>) -> Seq<Seq<u8>> {
    Seq::new(v.len(), |i: int| v[i]@)
}

/// The connections of `v` as values, in the same order.
pub open spec fn connection_views(v: Seq<Connection>) -> Seq<ConnectionView> {
    Seq::new(v.len(), |i: int| v[i]@)
}

fn find_flow(
    flows: &Vec<TrackedFlow>,
    protocol: crate::network::types::Protocol,
    local: &SocketAddress,
    remote: &SocketAddress,
) -> (r: Option<usize>)
    ensures
        match r {
            Some(i) => i < flows@.len() && flow_views(flows@)[i as int].connection.flow() == (
            FlowId { protocol, local_addr: *local, remote_addr: *remote }),
            None => !knows(
                flow_views(flows@),
                FlowId { protocol, local_addr: *local, remote_addr: *remote },
            ),
        },
{
    let ghost id = FlowId { protocol, local_addr: *local, remote_addr: *remote };
    let mut i: usize = 0;
    while i < flows.len()
        invariant
            i <= flows.len(),
            id == (FlowId { protocol, local_addr: *local, remote_addr: *remote }),
            forall|k: int|
                0 <= k < i ==> (#[trigger] flow_views(flows@)[k]).connection.flow() != id,
        decreases flows.len() - i,
    {
        let c = &flows[i].connection;
        assert(flow_views(flows@)[i as int].connection == c@);
        if c.protocol == protocol && c.local_addr == *local && c.remote_addr == *remote {
            return Some(i);
        }
        i = i + 1;
    }
    None
}

fn entry_is_listed(entries: &Vec<crate::network::Connection>, c: &Connection) -> (r: bool)
    ensures
        r == listed(entry_views(entries@), c@.flow()),
{
    let mut i: usize = 0;
    while i < entries.len()
        invariant
            i <= entries.len(),
            forall|k: int| 0 <= k < i ==> (#[trigger] entry_views(entries@)[k]).flow() != c@.flow(),
        decreases entries.len() - i,
    {
        let e = &entries[i];
        assert(entry_views(entries@)[i as int] == e@);
        if e.protocol.kind() == c.protocol && e.local_addr == c.local_addr && e.remote_addr
            == c.remote_addr {
            return true;
        }
        i = i + 1;
    }
    false
}

/// Notes on a flow what the socket table says of it.
pub fn fuse_entry(conn: Connection, e: &crate::network::Connection) -> (r: Connection)
    ensures
        r@ == fused(conn@, e@),
{
    let mut conn = conn;
    match conn.protocol_state {
        ProtocolState::Tcp(_) => {
            if e.state != ConnectionState::Unknown {
                conn.protocol_state = ProtocolState::Tcp(e.state.tcp_state());
            }
        },
        _ => {},
    }
    if conn.pid.is_none() && e.pid.is_some() {
        conn.pid = e.pid;
        conn.process_name = clone_opt_string(&e.process_name);
    }
    conn
}

/// The flow that is made at the time `now` for a socket of which no packet was seen.
pub fn connection_from_entry(e: &crate::network::Connection, now: u64) -> (r: Connection)
    ensures
        r@ == from_entry(e@, now),
{
    let state = match e.protocol {
        Protocol::TCP => ProtocolState::Tcp(e.state.tcp_state()),
        Protocol::UDP => ProtocolState::Udp,
    };
    let mut conn = Connection::new(e.protocol.kind(), e.local_addr, e.remote_addr, state, now);
    conn.pid = e.pid;
    conn.process_name = clone_opt_string(&e.process_name);
    conn
}

fn flow_has_stale_reassembler(conn: &Connection, now: u64) -> (r: bool)
    ensures
        r == has_stale_reassembler(conn@, now),
{
    match &conn.dpi_info {
        Some(dpi) => match &dpi.application {
            ApplicationProtocol::Quic(info) => match &info.crypto_reassembler {
                Some(r) => !r.has_complete_tls_info() && r.is_stale(now),
                None => false,
            },
            _ => false,
        },
        None => false,
    }
}

/// A copy of the flow, without its reassembler where that is stale at the time `now`.
pub fn refreshed_copy(conn: &Connection, now: u64) -> (r: Connection)
    ensures
        r@ == refreshed(conn@, now),
{
    let stale = flow_has_stale_reassembler(conn, now);
    let mut copy = conn.clone();
    if !stale {
        return copy;
    }
    match copy.dpi_info {
        Some(dpi) => {
            let first_packet_time = dpi.first_packet_time;
            let last_update_time = dpi.last_update_time;
            match dpi.application {
                ApplicationProtocol::Quic(info) => {
                    let mut info = info;
                    info.crypto_reassembler = None;
                    copy.dpi_info = Some(
                        DpiInfo {
                            application: ApplicationProtocol::Quic(info),
                            first_packet_time,
                            last_update_time,
                        },
                    );
                },
                other => {
                    copy.dpi_info = Some(
                        DpiInfo { application: other, first_packet_time, last_update_time },
                    );
                },
            }
        },
        None => {
            copy.dpi_info = None;
        },
    }
    copy
}

fn flow_is_expired(conn: &Connection, now: u64) -> (r: bool)
    ensures
        r == expired(conn@, now),
{
    let closed = match conn.protocol_state {
        ProtocolState::Tcp(TcpState::Closed) => true,
        _ => false,
    };
    closed || conn.idle_time(now) >= ACTIVE_THRESHOLD_MS
}

fn sweep(flows: &Vec<TrackedFlow>, entries: &Vec<crate::network::Connection>, now: u64) -> (r: Vec<
    TrackedFlow,
>)
    ensures
        flow_views(r@) == swept(flow_views(flows@), entry_views(entries@), now),
{
    let ghost fv = flow_views(flows@);
    let ghost ev = entry_views(entries@);
    let mut r: Vec<TrackedFlow> = Vec::new();
    let mut i: usize = 0;
    assert(fv.subrange(0, 0) =~= Seq::<TrackedFlowView>::empty());
    assert(flow_views(r@) =~= Seq::<TrackedFlowView>::empty());
    while i < flows.len()
        invariant
            i <= flows.len(),
            fv == flow_views(flows@),
            ev == entry_views(entries@),
            flow_views(r@) == swept(fv.subrange(0, i as int), ev, now),
        decreases flows.len() - i,
    {
        let f = &flows[i];
        assert(fv[i as int] == f@);
        assert(fv.subrange(0, i + 1).drop_last() =~= fv.subrange(0, i as int));
        assert(fv.subrange(0, i + 1).last() == fv[i as int]);
        let ghost before = flow_views(r@);
        if entry_is_listed(entries, &f.connection) || !flow_is_expired(&f.connection, now) {
            r.push(TrackedFlow { connection: refreshed_copy(&f.connection, now), index: f.index });
            assert(flow_views(r@) =~= before.push(
                TrackedFlowView { connection: refreshed(f@.connection, now), index: f.index },
            ));
        }
        i = i + 1;
    }
    assert(fv.subrange(0, i as int) =~= fv);
    r
}

/// What the tracker tells of itself.
#[derive(Debug, Clone, Copy, PartialEq, Eq, Structural)]
pub struct MonitorStats {
    pub tracked_flows: usize,
    pub reassemblers: usize,
    pub dropped_packets_since_last_tick: u64,
}

/// Keeps one record for each flow, fed by the packets that are captured and by what the
/// system's socket table lists, and shows the flows in the order in which they were
/// first seen.
#[derive(Debug)]
pub struct NetworkMonitor {
    interface: Option<String>,
    flows: Vec<TrackedFlow>,
    next_index: u64,
    collect_process_info: bool,
    filter_localhost: bool,
    last_packet_check: u64,
    dropped_packets: u64,
}

impl View for NetworkMonitor {
    type V = MonitorView;

    closed spec fn view(&self) -> MonitorView {
        MonitorView {
            interface: opt_text(self.interface),
            flows: flow_views(self.flows@),
            next_index: self.next_index,
            collect_process_info: self.collect_process_info,
            filter_localhost: self.filter_localhost,
            last_packet_check: self.last_packet_check,
            dropped_packets: self.dropped_packets,
        }
    }
}

impl NetworkMonitor {
    #[verifier::type_invariant]
    spec fn inv(&self) -> bool {
        self@.valid()
    }

    /// A tracker without flows, made at the time `now`, of which a poll is due at once.
    pub fn new(interface: Option<String>, filter_localhost: bool, now: u64) -> (r: Self)
        ensures
            r@ == (MonitorView {
                interface: opt_text(interface),
                flows: Seq::empty(),
                next_index: 0,
                collect_process_info: false,
                filter_localhost,
                last_packet_check: if now >= 2 * POLL_INTERVAL_MS {
                    (now - 2 * POLL_INTERVAL_MS) as u64
                } else {
                    0
                },
                dropped_packets: 0,
            }),
            r@.valid(),
    {
        let r = Self {
            interface,
            flows: Vec::new(),
            next_index: 0,
            collect_process_info: false,
            filter_localhost,
            last_packet_check: if now >= 2 * POLL_INTERVAL_MS {
                now - 2 * POLL_INTERVAL_MS
            } else {
                0
            },
            dropped_packets: 0,
        };
        assert(r@.flows =~= Seq::empty());
        r
    }

    /// Says whether the owning process is to be looked up for each flow.
    pub fn set_collect_process_info(&mut self, collect: bool)
        ensures
            final(self)@ == (MonitorView { collect_process_info: collect, ..old(self)@ }),
    {
        proof {
            use_type_invariant(&*self);
        }
        self.collect_process_info = collect;
    }

    pub fn collects_process_info(&self) -> (r: bool)
        ensures
            r == self@.collect_process_info,
    {
        self.collect_process_info
    }

    pub fn filters_localhost(&self) -> (r: bool)
        ensures
            r == self@.filter_localhost,
    {
        self.filter_localhost
    }

    pub fn interface(&self) -> (r: &Option<String>)
        ensures
            opt_text(*r) == self@.interface,
    {
        &self.interface
    }

    /// Whether the capture is to be polled at the time `now`: a tenth of a second after
    /// the last poll at the earliest.
    pub fn should_poll(&self, now: u64) -> (r: bool)
        ensures
            r == self@.poll_is_due(now),
    {
        now >= self.last_packet_check && now - self.last_packet_check >= POLL_INTERVAL_MS
    }

    /// Counts one packet, seen at the time `now`, on its flow, which is made where the
    /// packet is the first of it.
    #[verifier::rlimit(50)]
    pub fn process_packet(&mut self, parsed: &ParsedPacket, now: u64)
        ensures
            final(self)@ == old(self)@.with_packet(parsed@, now),
            final(self)@.valid(),
            extends(old(self)@, final(self)@),
            timed_until(old(self)@.flows, now) ==> timed_until(final(self)@.flows, now),
    {
        proof {
            use_type_invariant(&*self);
            lemma_with_packet(self@, parsed@, now);
            if timed_until(self@.flows, now) {
                lemma_with_packet_keeps_time(self@, parsed@, now);
            }
        }
        let ghost before = self@;
        let ghost id = packet_flow(parsed@);
        let mut flows: Vec<TrackedFlow> = Vec::new();
        assert(flow_views(flows@) =~= Seq::empty());
        std::mem::swap(&mut flows, &mut self.flows);
        match find_flow(&flows, parsed.protocol, &parsed.local_addr, &parsed.remote_addr) {
            Some(i) => {
                proof {
                    lemma_place_of(before.flows, id, i as int);
                }
                let flow = flows.remove(i);
                let conn = merge_packet_into_connection(flow.connection, parsed, now);
                let conn = feed_handshake(conn, parsed, now);
                flows.insert(i, TrackedFlow { connection: conn, index: flow.index });
                assert(flow_views(flows@) =~= before.with_packet(parsed@, now).flows);
                self.flows = flows;
            },
            None => {
                if self.next_index < u64::MAX {
                    let conn = create_connection_from_packet(parsed, now);
                    flows.push(TrackedFlow { connection: conn, index: self.next_index });
                    assert(flow_views(flows@) =~= before.with_packet(parsed@, now).flows);
                    self.next_index = self.next_index + 1;
                    self.flows = flows;
                } else {
                    assert(flow_views(flows@) =~= before.with_packet(parsed@, now).flows);
                    self.flows = flows;
                    self.dropped_packets = saturating_sum(self.dropped_packets, 1);
                }
            },
        }
    }

    /// Takes in one captured frame at the time `now`. A frame that carries no packet to
    /// look at is counted as dropped.
    pub fn process_frame(&mut self, data: &[u8], now: u64)
        ensures
            final(self)@ == old(self)@.with_frame(data@, now),
            final(self)@.valid(),
    {
        proof {
            use_type_invariant(&*self);
        }
        match parse_frame(data) {
            Some(parsed) => {
                self.process_packet(&parsed, now);
            },
            None => {
                self.dropped_packets = saturating_sum(self.dropped_packets, 1);
            },
        }
    }

    /// Takes in what a poll of the capture at the time `now` found: nothing where no poll
    /// is due, else the first hundred of the frames.
    pub fn process_packets(&mut self, frames: &Vec<Vec<u8>>, now: u64)
        ensures
            final(self)@ == old(self)@.polled(frame_views(frames@), now),
            final(self)@.valid(),
            extends(old(self)@, final(self)@),
            timed_until(old(self)@.flows, now) ==> timed_until(final(self)@.flows, now),
    {
        proof {
            use_type_invariant(&*self);
            lemma_polled(self@, frame_views(frames@), now);
            if timed_until(self@.flows, now) {
                lemma_polled_keeps_time(self@, frame_views(frames@), now);
            }
        }
        if !self.should_poll(now) {
            return ;
        }
        self.last_packet_check = now;
        let ghost start = self@;
        let ghost fv = frame_views(frames@);
        let n: usize = if frames.len() > MAX_PACKETS_PER_POLL {
            MAX_PACKETS_PER_POLL
        } else {
            frames.len()
        };
        let ghost taken = fv.subrange(0, n as int);
        assert(taken =~= if fv.len() > MAX_PACKETS_PER_POLL {
            fv.subrange(0, MAX_PACKETS_PER_POLL as int)
        } else {
            fv
        });
        let mut i: usize = 0;
        assert(taken.subrange(0, 0) =~= Seq::<Seq<u8>>::empty());
        while i < n
            invariant
                i <= n <= frames.len(),
                fv == frame_views(frames@),
                taken == fv.subrange(0, n as int),
                self@ == start.with_frames(taken.subrange(0, i as int), now),
            decreases n - i,
        {
            assert(taken.subrange(0, i + 1).drop_last() =~= taken.subrange(0, i as int));
            assert(taken.subrange(0, i + 1).last() == frames@[i as int]@);
            self.process_frame(frames[i].as_slice(), now);
            i = i + 1;
        }
        assert(taken.subrange(0, i as int) =~= taken);
    }

    /// Takes in a reading of the system's socket table, made at the time `now`: each
    /// socket is fused into its flow, or gets a flow where it has none; then the flows
    /// that the table does not list and that are closed or have been idle for five
    /// minutes are let go.
    #[verifier::rlimit(50)]
    pub fn apply_snapshot(&mut self, entries: &Vec<crate::network::Connection>, now: u64)
        ensures
            final(self)@ == old(self)@.after_snapshot(entry_views(entries@), now),
            final(self)@.valid(),
            extends(old(self)@, final(self)@),
            timed_until(old(self)@.flows, now) ==> timed_until(final(self)@.flows, now),
    {
        proof {
            use_type_invariant(&*self);
            lemma_after_snapshot(self@, entry_views(entries@), now);
            if timed_until(self@.flows, now) {
                lemma_after_snapshot_keeps_time(self@, entry_views(entries@), now);
            }
        }
        let ghost before = self@;
        let ghost ev = entry_views(entries@);
        let mut i: usize = 0;
        assert(ev.subrange(0, 0) =~= Seq::<crate::network::ConnectionView>::empty());
        while i < entries.len()
            invariant
                i <= entries.len(),
                ev == entry_views(entries@),
                before.valid(),
                self@ == before.with_entries(ev.subrange(0, i as int), now),
            decreases entries.len() - i,
        {
            assert(ev.subrange(0, i + 1).drop_last() =~= ev.subrange(0, i as int));
            assert(ev.subrange(0, i + 1).last() == entries@[i as int]@);
            proof {
                lemma_with_entries(before, ev.subrange(0, i as int), now);
            }
            self.apply_entry(&entries[i], now);
            i = i + 1;
        }
        assert(ev.subrange(0, i as int) =~= ev);
        proof {
            lemma_with_entries(before, ev, now);
            lemma_swept(self@.flows, self@.next_index, ev, now);
        }
        let kept = sweep(&self.flows, entries, now);
        self.flows = kept;
        self.dropped_packets = 0;
    }

    #[verifier::rlimit(50)]
    fn apply_entry(&mut self, e: &crate::network::Connection, now: u64)
        ensures
            final(self)@ == old(self)@.with_entry(e@, now),
    {
        proof {
            use_type_invariant(&*self);
            lemma_with_entry(self@, e@, now);
        }
        let ghost before = self@;
        let mut flows: Vec<TrackedFlow> = Vec::new();
        assert(flow_views(flows@) =~= Seq::empty());
        std::mem::swap(&mut flows, &mut self.flows);
        match find_flow(&flows, e.protocol.kind(), &e.local_addr, &e.remote_addr) {
            Some(i) => {
                proof {
                    lemma_place_of(before.flows, e@.flow(), i as int);
                }
                let flow = flows.remove(i);
                let conn = fuse_entry(flow.connection, e);
                flows.insert(i, TrackedFlow { connection: conn, index: flow.index });
                assert(flow_views(flows@) =~= before.with_entry(e@, now).flows);
                self.flows = flows;
            },
            None => {
                if self.next_index < u64::MAX {
                    let conn = connection_from_entry(e, now);
                    flows.push(TrackedFlow { connection: conn, index: self.next_index });
                    assert(flow_views(flows@) =~= before.with_entry(e@, now).flows);
                    self.next_index = self.next_index + 1;
                    self.flows = flows;
                } else {
                    assert(flow_views(flows@) =~= before.with_entry(e@, now).flows);
                    self.flows = flows;
                    self.dropped_packets = saturating_sum(self.dropped_packets, 1);
                }
            },
        }
    }

    /// Copies of the flows in the order in which they were first seen; where the tracker
    /// was asked to, without those between two loopback addresses.
    pub fn get_connections(&self) -> (r: Vec<Connection>)
        ensures
            connection_views(r@) == shown(self@.flows, self@.filter_localhost),
            self@.valid(),
    {
        proof {
            use_type_invariant(self);
        }
        let ghost fv = flow_views(self.flows@);
        let mut r: Vec<Connection> = Vec::new();
        let mut i: usize = 0;
        assert(fv.subrange(0, 0) =~= Seq::<TrackedFlowView>::empty());
        assert(connection_views(r@) =~= Seq::<ConnectionView>::empty());
        while i < self.flows.len()
            invariant
                i <= self.flows.len(),
                fv == flow_views(self.flows@),
                connection_views(r@) == shown(fv.subrange(0, i as int), self.filter_localhost),
            decreases self.flows.len() - i,
        {
            let c = &self.flows[i].connection;
            assert(fv[i as int].connection == c@);
            assert(fv.subrange(0, i + 1).drop_last() =~= fv.subrange(0, i as int));
            assert(fv.subrange(0, i + 1).last() == fv[i as int]);
            let ghost before = connection_views(r@);
            if !(self.filter_localhost && c.local_addr.ip.is_loopback()
                && c.remote_addr.ip.is_loopback()) {
                r.push(c.clone());
                assert(connection_views(r@) =~= before.push(c@));
            }
            i = i + 1;
        }
        assert(fv.subrange(0, i as int) =~= fv);
        r
    }

    /// The number of flows, the number of reassemblers that they hold, and the packets
    /// that were dropped since the socket table was last read.
    pub fn stats(&self) -> (r: MonitorStats)
        ensures
            r == (MonitorStats {
                tracked_flows: self@.flows.len() as usize,
                reassemblers: reassembler_count(self@.flows) as usize,
                dropped_packets_since_last_tick: self@.dropped_packets,
            }),
    {
        let ghost fv = flow_views(self.flows@);
        let mut count: usize = 0;
        let mut i: usize = 0;
        assert(fv.subrange(0, 0) =~= Seq::<TrackedFlowView>::empty());
        while i < self.flows.len()
            invariant
                i <= self.flows.len(),
                fv == flow_views(self.flows@),
                count == reassembler_count(fv.subrange(0, i as int)),
                count <= i,
            decreases self.flows.len() - i,
        {
            let c = &self.flows[i].connection;
            assert(fv[i as int].connection == c@);
            assert(fv.subrange(0, i + 1).drop_last() =~= fv.subrange(0, i as int));
            assert(fv.subrange(0, i + 1).last() == fv[i as int]);
            let has = match &c.dpi_info {
                Some(dpi) => match &dpi.application {
                    ApplicationProtocol::Quic(info) => info.crypto_reassembler.is_some(),
                    _ => false,
                },
                None => false,
            };
            if has {
                count = count + 1;
            }
            i = i + 1;
        }
        assert(fv.subrange(0, i as int) =~= fv);
        MonitorStats {
            tracked_flows: self.flows.len(),
            reassemblers: count,
            dropped_packets_since_last_tick: self.dropped_packets,
        }
    }

    /// The handshake bytes of the flow of the given identity that wait to be read.
    pub fn pending_handshake(
        &self,
        protocol: crate::network::types::Protocol,
        local: &SocketAddress,
        remote: &SocketAddress,
    ) -> (r: Option<Vec<u8>>)
        ensures
            match r {
                Some(v) => self@.pending_for(
                    FlowId { protocol, local_addr: *local, remote_addr: *remote },
                ) == Some(v@),
                None => self@.pending_for(
                    FlowId { protocol, local_addr: *local, remote_addr: *remote },
                ) is None,
            },
    {
        proof {
            use_type_invariant(self);
        }
        match find_flow(&self.flows, protocol, local, remote) {
            Some(i) => {
                proof {
                    lemma_place_of(
                        self@.flows,
                        FlowId { protocol, local_addr: *local, remote_addr: *remote },
                        i as int,
                    );
                }
                pending_handshake(&self.flows[i].connection)
            },
            None => None,
        }
    }

    /// Notes on the flow of the given identity what its handshake, read in full, told.
    /// Nothing changes where no such flow is known.
    #[verifier::rlimit(50)]
    pub fn complete_handshake(
        &mut self,
        protocol: crate::network::types::Protocol,
        local: &SocketAddress,
        remote: &SocketAddress,
        tls_info: TlsInfo,
    )
        ensures
            final(self)@ == old(self)@.with_tls_for(
                FlowId { protocol, local_addr: *local, remote_addr: *remote },
                tls_info@,
            ),
            final(self)@.valid(),
            extends(old(self)@, final(self)@),
    {
        proof {
            use_type_invariant(&*self);
        }
        let ghost before = self@;
        let ghost id = FlowId { protocol, local_addr: *local, remote_addr: *remote };
        proof {
            lemma_with_tls_for(before, id, tls_info@);
        }
        let mut flows: Vec<TrackedFlow> = Vec::new();
        assert(flow_views(flows@) =~= Seq::empty());
        std::mem::swap(&mut flows, &mut self.flows);
        match find_flow(&flows, protocol, local, remote) {
            Some(i) => {
                proof {
                    lemma_place_of(before.flows, id, i as int);
                }
                let flow = flows.remove(i);
                let conn = complete_handshake(flow.connection, tls_info);
                flows.insert(i, TrackedFlow { connection: conn, index: flow.index });
                assert(flow_views(flows@) =~= before.with_tls_for(id, tls_info@).flows);
                self.flows = flows;
            },
            None => {
                assert(flow_views(flows@) =~= before.flows);
                self.flows = flows;
            },
        }
    }
}

} // verus!
