//! The reader of captured frames: Ethernet, IPv4, and the start of TCP or UDP.

use vstd::prelude::*;
use crate::addr::{IpAddress, SocketAddress};
use crate::network::dpi::{opt_result_view, DpiResult, DpiResultView};
use crate::network::types::{key_text, push_key, Protocol, ProtocolState, TcpState};
use crate::text::from_chars;

verus! {

/// The length of an Ethernet header.
pub const ETHERNET_HEADER_LEN: usize = 14;

/// The length of the shortest IPv4 header.
pub const MIN_IP_HEADER_LEN: usize = 20;

/// The bytes of a transport header that every packet must hold.
pub const MIN_TRANSPORT_LEN: usize = 8;

/// The length of the shortest TCP header.
pub const MIN_TCP_HEADER_LEN: usize = 20;

/// The length of the shortest frame that is looked at: the three minimums together.
pub const MIN_FRAME_LEN: usize = ETHERNET_HEADER_LEN + MIN_IP_HEADER_LEN + MIN_TRANSPORT_LEN;

/// The flags of a TCP segment.
#[derive(Debug, Clone, Copy, PartialEq, Eq, Structural)]
pub struct TcpFlags {
    pub syn: bool,
    pub ack: bool,
    pub fin: bool,
    pub rst: bool,
    pub psh: bool,
    pub urg: bool,
}

/// The flags that the flag byte of a TCP header holds.
pub open spec fn flags_of(byte: u8) -> TcpFlags {
    TcpFlags {
        fin: byte & 0x01 != 0,
        syn: byte & 0x02 != 0,
        rst: byte & 0x04 != 0,
        psh: byte & 0x08 != 0,
        ack: byte & 0x10 != 0,
        urg: byte & 0x20 != 0,
    }
}

pub fn flags_from_byte(byte: u8) -> (r: TcpFlags)
    ensures
        r == flags_of(byte),
{
    TcpFlags {
        fin: byte & 0x01 != 0,
        syn: byte & 0x02 != 0,
        rst: byte & 0x04 != 0,
        psh: byte & 0x08 != 0,
        ack: byte & 0x10 != 0,
        urg: byte & 0x20 != 0,
    }
}

/// One packet, as far as the tracker looks at it.
#[derive(Debug)]
pub struct ParsedPacket {
    pub connection_key: String,
    pub protocol: Protocol,
    pub local_addr: SocketAddress,
    pub remote_addr: SocketAddress,
    pub protocol_state: ProtocolState,
    pub tcp_flags: Option<TcpFlags>,
    pub is_outgoing: bool,
    pub packet_len: usize,
    pub dpi_result: Option<DpiResult>,
}

/// A `ParsedPacket` as a value.
pub struct ParsedPacketView {
    pub connection_key: Seq<char>,
    pub protocol: Protocol,
    pub local_addr: SocketAddress,
    pub remote_addr: SocketAddress,
    pub protocol_state: ProtocolState,
    pub tcp_flags: Option<TcpFlags>,
    pub is_outgoing: bool,
    pub packet_len: usize,
    pub dpi_result: Option<DpiResultView>,
}

impl View for ParsedPacket {
    type V = ParsedPacketView;

    open spec fn view(&self) -> ParsedPacketView {
        ParsedPacketView {
            connection_key: self.connection_key@,
            protocol: self.protocol,
            local_addr: self.local_addr,
            remote_addr: self.remote_addr,
            protocol_state: self.protocol_state,
            tcp_flags: self.tcp_flags,
            is_outgoing: self.is_outgoing,
            packet_len: self.packet_len,
            dpi_result: opt_result_view(self.dpi_result),
        }
    }
}

/// The number that two bytes write, the first the higher.
pub open spec fn be16(hi: u8, lo: u8) -> u16 {
    (hi * 256 + lo) as u16
}

/// The IPv4 address written in the four bytes of `data` from `at` on.
pub open spec fn v4_at(data: Seq<u8>, at: int) -> IpAddress {
    IpAddress::V4(data[at], data[at + 1], data[at + 2], data[at + 3])
}

/// Where the transport header of an Ethernet frame with an IPv4 packet starts.
pub open spec fn transport_start(data: Seq<u8>) -> int {
    ETHERNET_HEADER_LEN + (data[ETHERNET_HEADER_LEN as int] % 16) * 4
}

/// The packet that an Ethernet frame carries, as the tracker sees it; `None` for a frame
/// that is dropped: one shorter than the three headers' minimum, one that does not carry
/// IPv4, one cut off before the end of its transport header, or one that is neither TCP
/// nor UDP.
///
/// A packet whose source lies in a private or loopback range is outgoing, and its source
/// is the flow's local end; of any other packet the destination is.
pub open spec fn frame_packet(data: Seq<u8>) -> Option<ParsedPacketView> {
    if data.len() < MIN_FRAME_LEN {
        None
    } else if data[ETHERNET_HEADER_LEN as int] / 16 != 4 {
        None
    } else {
        let t = transport_start(data);
        let protocol = data[ETHERNET_HEADER_LEN + 9];
        let src_ip = v4_at(data, ETHERNET_HEADER_LEN + 12);
        let dst_ip = v4_at(data, ETHERNET_HEADER_LEN + 16);
        if t + MIN_TRANSPORT_LEN > data.len() {
            None
        } else if protocol != 6 && protocol != 17 {
            None
        } else if protocol == 6 && t + MIN_TCP_HEADER_LEN > data.len() {
            None
        } else {
            let src = SocketAddress { ip: src_ip, port: be16(data[t], data[t + 1]) };
            let dst = SocketAddress { ip: dst_ip, port: be16(data[t + 2], data[t + 3]) };
            let is_outgoing = src_ip.is_local_source();
            let local_addr = if is_outgoing {
                src
            } else {
                dst
            };
            let remote_addr = if is_outgoing {
                dst
            } else {
                src
            };
            let proto = if protocol == 6 {
                Protocol::TCP
            } else {
                Protocol::UDP
            };
            Some(
                ParsedPacketView {
                    connection_key: key_text(proto, local_addr, remote_addr),
                    protocol: proto,
                    local_addr,
                    remote_addr,
                    protocol_state: if protocol == 6 {
                        ProtocolState::Tcp(TcpState::Unknown)
                    } else {
                        ProtocolState::Udp
                    },
                    tcp_flags: if protocol == 6 {
                        Some(flags_of(data[t + 13]))
                    } else {
                        None
                    },
                    is_outgoing,
                    packet_len: data.len() as usize,
                    dpi_result: None,
                },
            )
        }
    }
}

/// Reads the packet that an Ethernet frame carries.
pub fn parse_frame(data: &[u8]) -> (r: Option<ParsedPacket>)
    ensures
        match r {
            Some(p) => frame_packet(data@) == Some(p@),
            None => frame_packet(data@) is None,
        },
{
    if data.len() < MIN_FRAME_LEN {
        return None;
    }
    let version_ihl: u8 = data[14];
    if version_ihl / 16 != 4 {
        return None;
    }
    let protocol: u8 = data[23];
    let src_ip = IpAddress::V4(data[26], data[27], data[28], data[29]);
    let dst_ip = IpAddress::V4(data[30], data[31], data[32], data[33]);
    let t: usize = 14 + ((version_ihl % 16) as usize) * 4;
    if t + MIN_TRANSPORT_LEN > data.len() {
        return None;
    }
    if protocol != 6 && protocol != 17 {
        return None;
    }
    if protocol == 6 && t + MIN_TCP_HEADER_LEN > data.len() {
        return None;
    }
    let src_port: u16 = (data[t] as u16) * 256 + data[t + 1] as u16;
    let dst_port: u16 = (data[t + 2] as u16) * 256 + data[t + 3] as u16;
    let src = SocketAddress { ip: src_ip, port: src_port };
    let dst = SocketAddress { ip: dst_ip, port: dst_port };
    let is_outgoing = src_ip.is_outgoing_source();
    let (local_addr, remote_addr) = if is_outgoing {
        (src, dst)
    } else {
        (dst, src)
    };
    let proto = if protocol == 6 {
        Protocol::TCP
    } else {
        Protocol::UDP
    };
    let mut key: Vec<char> = Vec::new();
    push_key(&mut key, proto, &local_addr, &remote_addr);
    assert(key@ =~= key_text(proto, local_addr, remote_addr));
    let (protocol_state, tcp_flags) = if protocol == 6 {
        (ProtocolState::Tcp(TcpState::Unknown), Some(flags_from_byte(data[t + 13])))
    } else {
        (ProtocolState::Udp, None)
    };
    Some(
        ParsedPacket {
            connection_key: from_chars(&key),
            protocol: proto,
            local_addr,
            remote_addr,
            protocol_state,
            tcp_flags,
            is_outgoing,
            packet_len: data.len(),
            dpi_result: None,
        },
    )
}

} // verus!
