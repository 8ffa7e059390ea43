//! Flows and sockets: the records, the packet reader, the TCP state engine, the
//! handshake reassembler, the reader of the socket table and the tracker.

pub mod dpi;
pub mod handshake;
pub mod linux;
pub mod merge;
pub mod monitor;
pub mod parser;
pub mod reassembly;
pub mod ss_line;
pub mod types;

pub use crate::network::monitor::NetworkMonitor;

use vstd::prelude::*;
use crate::addr::SocketAddress;
use crate::network::types::TcpState;
use crate::text::{clone_opt_string, opt_text};

verus! {

/// The protocol of a socket in the system's socket table.
#[derive(Debug, Clone, Copy, PartialEq, Eq, Structural)]
pub enum Protocol {
    TCP,
    UDP,
}

impl Protocol {
    pub open spec fn text(self) -> Seq<char> {
        match self {
            Protocol::TCP => "TCP"@,
            Protocol::UDP => "UDP"@,
        }
    }

    /// The protocol among those of a flow.
    pub open spec fn spec_kind(&self) -> types::Protocol {
        match *self {
            Protocol::TCP => types::Protocol::TCP,
            Protocol::UDP => types::Protocol::UDP,
        }
    }

    pub fn name(&self) -> (s: &'static str)
        ensures
            s@ == self.text(),
    {
        match self {
            Protocol::TCP => "TCP",
            Protocol::UDP => "UDP",
        }
    }

    #[verifier::when_used_as_spec(spec_kind)]
    pub fn kind(&self) -> (r: types::Protocol)
        ensures
            r == self.spec_kind(),
    {
        match self {
            Protocol::TCP => types::Protocol::TCP,
            Protocol::UDP => types::Protocol::UDP,
        }
    }
}

/// The state of a socket as the system's socket table names it.
#[derive(Debug, Clone, Copy, PartialEq, Eq, Structural)]
pub enum ConnectionState {
    Established,
    SynSent,
    SynReceived,
    FinWait1,
    FinWait2,
    TimeWait,
    CloseWait,
    LastAck,
    Listen,
    Closing,
    Reset,
    Unknown,
}

impl ConnectionState {
    pub open spec fn text(self) -> Seq<char> {
        match self {
            ConnectionState::Established => "ESTABLISHED"@,
            ConnectionState::SynSent => "SYN_SENT"@,
            ConnectionState::SynReceived => "SYN_RECEIVED"@,
            ConnectionState::FinWait1 => "FIN_WAIT_1"@,
            ConnectionState::FinWait2 => "FIN_WAIT_2"@,
            ConnectionState::TimeWait => "TIME_WAIT"@,
            ConnectionState::CloseWait => "CLOSE_WAIT"@,
            ConnectionState::LastAck => "LAST_ACK"@,
            ConnectionState::Listen => "LISTEN"@,
            ConnectionState::Closing => "CLOSING"@,
            ConnectionState::Reset => "RESET"@,
            ConnectionState::Unknown => "UNKNOWN"@,
        }
    }

    /// The state among those of a tracked TCP flow; a reset socket is closed.
    pub open spec fn spec_tcp_state(&self) -> TcpState {
        match *self {
            ConnectionState::Established => TcpState::Established,
            ConnectionState::SynSent => TcpState::SynSent,
            ConnectionState::SynReceived => TcpState::SynReceived,
            ConnectionState::FinWait1 => TcpState::FinWait1,
            ConnectionState::FinWait2 => TcpState::FinWait2,
            ConnectionState::TimeWait => TcpState::TimeWait,
            ConnectionState::CloseWait => TcpState::CloseWait,
            ConnectionState::LastAck => TcpState::LastAck,
            ConnectionState::Listen => TcpState::Listen,
            ConnectionState::Closing => TcpState::Closing,
            ConnectionState::Reset => TcpState::Closed,
            ConnectionState::Unknown => TcpState::Unknown,
        }
    }

    pub fn name(&self) -> (s: &'static str)
        ensures
            s@ == self.text(),
    {
        match self {
            ConnectionState::Established => "ESTABLISHED",
            ConnectionState::SynSent => "SYN_SENT",
            ConnectionState::SynReceived => "SYN_RECEIVED",
            ConnectionState::FinWait1 => "FIN_WAIT_1",
            ConnectionState::FinWait2 => "FIN_WAIT_2",
            ConnectionState::TimeWait => "TIME_WAIT",
            ConnectionState::CloseWait => "CLOSE_WAIT",
            ConnectionState::LastAck => "LAST_ACK",
            ConnectionState::Listen => "LISTEN",
            ConnectionState::Closing => "CLOSING",
            ConnectionState::Reset => "RESET",
            ConnectionState::Unknown => "UNKNOWN",
        }
    }

    #[verifier::when_used_as_spec(spec_tcp_state)]
    pub fn tcp_state(&self) -> (r: TcpState)
        ensures
            r == self.spec_tcp_state(),
    {
        match self {
            ConnectionState::Established => TcpState::Established,
            ConnectionState::SynSent => TcpState::SynSent,
            ConnectionState::SynReceived => TcpState::SynReceived,
            ConnectionState::FinWait1 => TcpState::FinWait1,
            ConnectionState::FinWait2 => TcpState::FinWait2,
            ConnectionState::TimeWait => TcpState::TimeWait,
            ConnectionState::CloseWait => TcpState::CloseWait,
            ConnectionState::LastAck => TcpState::LastAck,
            ConnectionState::Listen => TcpState::Listen,
            ConnectionState::Closing => TcpState::Closing,
            ConnectionState::Reset => TcpState::Closed,
            ConnectionState::Unknown => TcpState::Unknown,
        }
    }
}

/// A socket seen after this many milliseconds without activity is no longer active.
pub const SOCKET_ACTIVE_MS: u64 = 60000;

/// One socket of the system's socket table.
#[derive(Debug)]
pub struct Connection {
    pub protocol: Protocol,
    pub local_addr: SocketAddress,
    pub remote_addr: SocketAddress,
    pub state: ConnectionState,
    pub pid: Option<u32>,
    pub process_name: Option<String>,
    pub bytes_sent: u64,
    pub bytes_received: u64,
    pub packets_sent: u64,
    pub packets_received: u64,
    /// The time at which the socket was read, in milliseconds.
    pub created_at: u64,
    pub last_activity: u64,
}

/// A socket of the socket table as a value.
pub struct ConnectionView {
    pub protocol: Protocol,
    pub local_addr: SocketAddress,
    pub remote_addr: SocketAddress,
    pub state: ConnectionState,
    pub pid: Option<u32>,
    pub process_name: Option<Seq<char>>,
    pub bytes_sent: u64,
    pub bytes_received: u64,
    pub packets_sent: u64,
    pub packets_received: u64,
    pub created_at: u64,
    pub last_activity: u64,
}

impl ConnectionView {
    /// The identity of the flow that the socket belongs to.
    pub open spec fn flow(self) -> types::FlowId {
        types::FlowId {
            protocol: self.protocol.kind(),
            local_addr: self.local_addr,
            remote_addr: self.remote_addr,
        }
    }

    /// A socket read at the time `now`, of which no packet was counted.
    pub open spec fn fresh(
        protocol: Protocol,
        local_addr: SocketAddress,
        remote_addr: SocketAddress,
        state: ConnectionState,
        now: u64,
    ) -> ConnectionView {
        ConnectionView {
            protocol,
            local_addr,
            remote_addr,
            state,
            pid: None,
            process_name: None,
            bytes_sent: 0,
            bytes_received: 0,
            packets_sent: 0,
            packets_received: 0,
            created_at: now,
            last_activity: now,
        }
    }

    /// The milliseconds from the last activity to `now`; 0 where `now` is earlier.
    pub open spec fn idle(self, now: u64) -> int {
        if now >= self.last_activity {
            now - self.last_activity
        } else {
            0
        }
    }

    /// The milliseconds from the reading to `now`; 0 where `now` is earlier.
    pub open spec fn age(self, now: u64) -> int {
        if now >= self.created_at {
            now - self.created_at
        } else {
            0
        }
    }
}

impl View for Connection {
    type V = ConnectionView;

    open spec fn view(&self) -> ConnectionView {
        ConnectionView {
            protocol: self.protocol,
            local_addr: self.local_addr,
            remote_addr: self.remote_addr,
            state: self.state,
            pid: self.pid,
            process_name: opt_text(self.process_name),
            bytes_sent: self.bytes_sent,
            bytes_received: self.bytes_received,
            packets_sent: self.packets_sent,
            packets_received: self.packets_received,
            created_at: self.created_at,
            last_activity: self.last_activity,
        }
    }
}

impl Clone for Connection {
    fn clone(&self) -> (r: Self)
        ensures
            r@ == self@,
    {
        Self {
            protocol: self.protocol,
            local_addr: self.local_addr,
            remote_addr: self.remote_addr,
            state: self.state,
            pid: self.pid,
            process_name: clone_opt_string(&self.process_name),
            bytes_sent: self.bytes_sent,
            bytes_received: self.bytes_received,
            packets_sent: self.packets_sent,
            packets_received: self.packets_received,
            created_at: self.created_at,
            last_activity: self.last_activity,
        }
    }
}

impl Connection {
    /// A socket read at the time `now`.
    pub fn new(
        protocol: Protocol,
        local_addr: SocketAddress,
        remote_addr: SocketAddress,
        state: ConnectionState,
        now: u64,
    ) -> (r: Self)
        ensures
            r@ == ConnectionView::fresh(protocol, local_addr, remote_addr, state, now),
    {
        Self {
            protocol,
            local_addr,
            remote_addr,
            state,
            pid: None,
            process_name: None,
            bytes_sent: 0,
            bytes_received: 0,
            packets_sent: 0,
            packets_received: 0,
            created_at: now,
            last_activity: now,
        }
    }

    /// The milliseconds from the reading to `now`.
    pub fn age(&self, now: u64) -> (r: u64)
        ensures
            r == self@.age(now),
    {
        if now >= self.created_at {
            now - self.created_at
        } else {
            0
        }
    }

    /// The milliseconds from the last activity to `now`.
    pub fn idle_time(&self, now: u64) -> (r: u64)
        ensures
            r == self@.idle(now),
    {
        if now >= self.last_activity {
            now - self.last_activity
        } else {
            0
        }
    }

    /// Whether the socket was active in the last minute before `now`.
    pub fn is_active(&self, now: u64) -> (r: bool)
        ensures
            r == (self@.idle(now) < SOCKET_ACTIVE_MS),
    {
        self.idle_time(now) < SOCKET_ACTIVE_MS
    }
}

/// The process that owns a socket.
#[derive(Debug)]
pub struct Process {
    pub pid: u32,
    pub name: String,
    pub command_line: Option<String>,
    pub user: Option<String>,
    pub memory_usage: Option<u64>,
}

/// A `Process` as a value.
pub struct ProcessView {
    pub pid: u32,
    pub name: Seq<char>,
    pub command_line: Option<Seq<char>>,
    pub user: Option<Seq<char>>,
    pub memory_usage: Option<u64>,
}

impl View for Process {
    type V = ProcessView;

    open spec fn view(&self) -> ProcessView {
        ProcessView {
            pid: self.pid,
            name: self.name@,
            command_line: opt_text(self.command_line),
            user: opt_text(self.user),
            memory_usage: self.memory_usage,
        }
    }
}

impl Clone for Process {
    fn clone(&self) -> (r: Self)
        ensures
            r@ == self@,
    {
        Self {
            pid: self.pid,
            name: self.name.clone(),
            command_line: clone_opt_string(&self.command_line),
            user: clone_opt_string(&self.user),
            memory_usage: self.memory_usage,
        }
    }
}

impl ProcessView {
    /// A process of which the number and the name are known.
    pub open spec fn named(pid: u32, name: Seq<char>) -> ProcessView {
        ProcessView { pid, name, command_line: None, user: None, memory_usage: None }
    }
}

} // verus!
