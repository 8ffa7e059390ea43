//! The record of a flow and what belongs to it.

use vstd::prelude::*;
use vstd::string::StringExecFns;
use crate::addr::{IpAddress, SocketAddress};
pub use crate::network::reassembly::CryptoFrameReassembler;

use crate::network::reassembly::{ReassemblerView, MAX_BUFFER_SIZE};
use crate::text::{
    clone_bytes, clone_opt_string, clone_strings, decimal_text, from_chars, opt_text,
    push_decimal, push_str, texts, to_uppercase, uppercase_text,
};

verus! {

/// The protocol of a flow.
#[derive(Debug, Clone, Copy, PartialEq, Eq, Hash, Structural)]
pub enum Protocol {
    TCP,
    UDP,
    ICMP,
    ARP,
}

impl Protocol {
    /// The name under which the protocol is written, in keys and on screen.
    pub open spec fn text(self) -> Seq<char> {
        match self {
            Protocol::TCP => "TCP"@,
            Protocol::UDP => "UDP"@,
            Protocol::ICMP => "ICMP"@,
            Protocol::ARP => "ARP"@,
        }
    }

    pub fn name(&self) -> (s: &'static str)
        ensures
            s@ == self.text(),
    {
        match self {
            Protocol::TCP => "TCP",
            Protocol::UDP => "UDP",
            Protocol::ICMP => "ICMP",
            Protocol::ARP => "ARP",
        }
    }

    pub fn to_text(&self) -> (s: String)
        ensures
            s@ == self.text(),
    {
        self.name().to_owned()
    }
}

/// The state of a TCP connection.
#[derive(Debug, Clone, Copy, PartialEq, Eq, Structural)]
pub enum TcpState {
    Listen,
    SynSent,
    SynReceived,
    Established,
    FinWait1,
    FinWait2,
    CloseWait,
    LastAck,
    TimeWait,
    Closing,
    Closed,
    Unknown,
}

impl TcpState {
    /// The variant's name, as it is shown for a TCP flow.
    pub open spec fn text(self) -> Seq<char> {
        match self {
            TcpState::Listen => "Listen"@,
            TcpState::SynSent => "SynSent"@,
            TcpState::SynReceived => "SynReceived"@,
            TcpState::Established => "Established"@,
            TcpState::FinWait1 => "FinWait1"@,
            TcpState::FinWait2 => "FinWait2"@,
            TcpState::CloseWait => "CloseWait"@,
            TcpState::LastAck => "LastAck"@,
            TcpState::TimeWait => "TimeWait"@,
            TcpState::Closing => "Closing"@,
            TcpState::Closed => "Closed"@,
            TcpState::Unknown => "Unknown"@,
        }
    }

    pub fn name(&self) -> (s: &'static str)
        ensures
            s@ == self.text(),
    {
        match self {
            TcpState::Listen => "Listen",
            TcpState::SynSent => "SynSent",
            TcpState::SynReceived => "SynReceived",
            TcpState::Established => "Established",
            TcpState::FinWait1 => "FinWait1",
            TcpState::FinWait2 => "FinWait2",
            TcpState::CloseWait => "CloseWait",
            TcpState::LastAck => "LastAck",
            TcpState::TimeWait => "TimeWait",
            TcpState::Closing => "Closing",
            TcpState::Closed => "Closed",
            TcpState::Unknown => "Unknown",
        }
    }
}

#[derive(Debug, Clone, Copy, PartialEq, Eq, Structural)]
pub enum ArpOperation {
    Request,
    Reply,
}

/// What is known of a flow's state, by protocol.
#[derive(Debug, Clone, Copy, PartialEq, Eq, Structural)]
pub enum ProtocolState {
    Tcp(TcpState),
    Udp,
    Icmp { icmp_type: u8, icmp_code: u8 },
    Arp { operation: ArpOperation },
}

impl ProtocolState {
    /// The state as it is shown on screen.
    pub open spec fn text(self) -> Seq<char> {
        match self {
            ProtocolState::Tcp(tcp_state) => tcp_state.text(),
            ProtocolState::Udp => "ACTIVE"@,
            ProtocolState::Icmp { icmp_type, .. } => if icmp_type == 8 {
                "ECHO_REQUEST"@
            } else if icmp_type == 0 {
                "ECHO_REPLY"@
            } else if icmp_type == 3 {
                "DEST_UNREACH"@
            } else if icmp_type == 11 {
                "TIME_EXCEEDED"@
            } else {
                "UNKNOWN"@
            },
            ProtocolState::Arp { operation } => match operation {
                ArpOperation::Request => "ARP_REQUEST"@,
                ArpOperation::Reply => "ARP_REPLY"@,
            },
        }
    }

    pub fn name(&self) -> (s: &'static str)
        ensures
            s@ == self.text(),
    {
        match self {
            ProtocolState::Tcp(tcp_state) => tcp_state.name(),
            ProtocolState::Udp => "ACTIVE",
            ProtocolState::Icmp { icmp_type, .. } => {
                if *icmp_type == 8 {
                    "ECHO_REQUEST"
                } else if *icmp_type == 0 {
                    "ECHO_REPLY"
                } else if *icmp_type == 3 {
                    "DEST_UNREACH"
                } else if *icmp_type == 11 {
                    "TIME_EXCEEDED"
                } else {
                    "UNKNOWN"
                }
            },
            ProtocolState::Arp { operation } => match operation {
                ArpOperation::Request => "ARP_REQUEST",
                ArpOperation::Reply => "ARP_REPLY",
            },
        }
    }
}

#[derive(Debug, Clone, Copy, PartialEq, Eq, Structural)]
pub enum HttpVersion {
    Http10,
    Http11,
    Http2,
}

#[derive(Debug)]
pub struct HttpInfo {
    pub version: HttpVersion,
    pub method: Option<String>,
    pub host: Option<String>,
    pub path: Option<String>,
    pub status_code: Option<u16>,
    pub user_agent: Option<String>,
}

/// An `HttpInfo` as a value.
pub struct HttpInfoView {
    pub version: HttpVersion,
    pub method: Option<Seq<char>>,
    pub host: Option<Seq<char>>,
    pub path: Option<Seq<char>>,
    pub status_code: Option<u16>,
    pub user_agent: Option<Seq<char>>,
}

impl View for HttpInfo {
    type V = HttpInfoView;

    open spec fn view(&self) -> HttpInfoView {
        HttpInfoView {
            version: self.version,
            method: opt_text(self.method),
            host: opt_text(self.host),
            path: opt_text(self.path),
            status_code: self.status_code,
            user_agent: opt_text(self.user_agent),
        }
    }
}

impl Clone for HttpInfo {
    fn clone(&self) -> (r: Self)
        ensures
            r@ == self@,
    {
        Self {
            version: self.version,
            method: clone_opt_string(&self.method),
            host: clone_opt_string(&self.host),
            path: clone_opt_string(&self.path),
            status_code: self.status_code,
            user_agent: clone_opt_string(&self.user_agent),
        }
    }
}

#[derive(Debug, Clone, Copy, PartialEq, Eq, Structural)]
pub enum TlsVersion {
    Ssl3,
    Tls10,
    Tls11,
    Tls12,
    Tls13,
}

impl TlsVersion {
    pub open spec fn text(self) -> Seq<char> {
        match self {
            TlsVersion::Ssl3 => "SSL 3.0"@,
            TlsVersion::Tls10 => "TLS 1.0"@,
            TlsVersion::Tls11 => "TLS 1.1"@,
            TlsVersion::Tls12 => "TLS 1.2"@,
            TlsVersion::Tls13 => "TLS 1.3"@,
        }
    }

    pub fn to_text(&self) -> (s: String)
        ensures
            s@ == self.text(),
    {
        match self {
            TlsVersion::Ssl3 => "SSL 3.0".to_owned(),
            TlsVersion::Tls10 => "TLS 1.0".to_owned(),
            TlsVersion::Tls11 => "TLS 1.1".to_owned(),
            TlsVersion::Tls12 => "TLS 1.2".to_owned(),
            TlsVersion::Tls13 => "TLS 1.3".to_owned(),
        }
    }
}

/// What a TLS handshake told of a flow.
#[derive(Debug)]
pub struct TlsInfo {
    pub version: Option<TlsVersion>,
    pub sni: Option<String>,
    pub alpn: Vec<String>,
    pub cipher_suite: Option<u16>,
}

/// A `TlsInfo` as a value.
pub struct TlsInfoView {
    pub version: Option<TlsVersion>,
    pub sni: Option<Seq<char>>,
    pub alpn: Seq<Seq<char>>,
    pub cipher_suite: Option<u16>,
}

impl View for TlsInfo {
    type V = TlsInfoView;

    open spec fn view(&self) -> TlsInfoView {
        TlsInfoView {
            version: self.version,
            sni: opt_text(self.sni),
            alpn: texts(self.alpn@),
            cipher_suite: self.cipher_suite,
        }
    }
}

/// The value of an optional `TlsInfo`.
pub open spec fn opt_tls_view(o: Option<TlsInfo>) -> Option<TlsInfoView> {
    match o {
        Some(t) => Some(t@),
        None => None,
    }
}

impl Clone for TlsInfo {
    fn clone(&self) -> (r: Self)
        ensures
            r@ == self@,
    {
        Self {
            version: self.version,
            sni: clone_opt_string(&self.sni),
            alpn: clone_strings(&self.alpn),
            cipher_suite: self.cipher_suite,
        }
    }
}

/// A copy of an optional `TlsInfo`.
pub fn clone_opt_tls(o: &Option<TlsInfo>) -> (r: Option<TlsInfo>)
    ensures
        opt_tls_view(r) == opt_tls_view(*o),
{
    match o {
        Some(t) => Some(t.clone()),
        None => None,
    }
}

impl TlsInfo {
    /// A record in which nothing is known yet.
    pub fn new() -> (r: Self)
        ensures
            r@ == (TlsInfoView {
                version: None,
                sni: None,
                alpn: Seq::empty(),
                cipher_suite: None,
            }),
    {
        let r = Self { version: None, sni: None, alpn: Vec::new(), cipher_suite: None };
        assert(r@.alpn =~= Seq::empty());
        r
    }
}

#[derive(Debug)]
pub struct HttpsInfo {
    pub tls_info: Option<TlsInfo>,
}

/// An `HttpsInfo` as a value.
pub struct HttpsInfoView {
    pub tls_info: Option<TlsInfoView>,
}

impl View for HttpsInfo {
    type V = HttpsInfoView;

    open spec fn view(&self) -> HttpsInfoView {
        HttpsInfoView { tls_info: opt_tls_view(self.tls_info) }
    }
}

impl Clone for HttpsInfo {
    fn clone(&self) -> (r: Self)
        ensures
            r@ == self@,
    {
        Self { tls_info: clone_opt_tls(&self.tls_info) }
    }
}

#[derive(Debug, Clone, Copy, PartialEq, Eq, Structural)]
pub enum DnsQueryType {
    A,
    NS,
    CNAME,
    SOA,
    PTR,
    HINFO,
    MX,
    TXT,
    RP,
    AFSDB,
    SIG,
    KEY,
    AAAA,
    LOC,
    SRV,
    NAPTR,
    KX,
    CERT,
    DNAME,
    APL,
    DS,
    SSHFP,
    IPSECKEY,
    RRSIG,
    NSEC,
    DNSKEY,
    DHCID,
    NSEC3,
    NSEC3PARAM,
    TLSA,
    SMIMEA,
    HIP,
    CDS,
    CDNSKEY,
    OPENPGPKEY,
    CSYNC,
    ZONEMD,
    SVCB,
    HTTPS,
    EUI48,
    EUI64,
    TKEY,
    TSIG,
    URI,
    CAA,
    TA,
    DLV,
    Other(u16),
}

#[derive(Debug)]
pub struct DnsInfo {
    pub query_name: Option<String>,
    pub query_type: Option<DnsQueryType>,
    pub response_ips: Vec<IpAddress>,
    pub is_response: bool,
}

/// A `DnsInfo` as a value.
pub struct DnsInfoView {
    pub query_name: Option<Seq<char>>,
    pub query_type: Option<DnsQueryType>,
    pub response_ips: Seq<IpAddress>,
    pub is_response: bool,
}

impl View for DnsInfo {
    type V = DnsInfoView;

    open spec fn view(&self) -> DnsInfoView {
        DnsInfoView {
            query_name: opt_text(self.query_name),
            query_type: self.query_type,
            response_ips: self.response_ips@,
            is_response: self.is_response,
        }
    }
}

impl Clone for DnsInfo {
    fn clone(&self) -> (r: Self)
        ensures
            r@ == self@,
    {
        let mut ips: Vec<IpAddress> = Vec::new();
        let mut i: usize = 0;
        while i < self.response_ips.len()
            invariant
                i <= self.response_ips.len(),
                ips@ == self.response_ips@.subrange(0, i as int),
            decreases self.response_ips.len() - i,
        {
            ips.push(self.response_ips[i]);
            i = i + 1;
            assert(ips@ =~= self.response_ips@.subrange(0, i as int));
        }
        assert(self.response_ips@.subrange(0, i as int) =~= self.response_ips@);
        Self {
            query_name: clone_opt_string(&self.query_name),
            query_type: self.query_type,
            response_ips: ips,
            is_response: self.is_response,
        }
    }
}

#[derive(Debug, Clone, Copy, PartialEq, Eq, Structural)]
pub enum QuicPacketType {
    Initial,
    ZeroRtt,
    Handshake,
    Retry,
    VersionNegotiation,
    OneRtt,
    Unknown,
}

impl QuicPacketType {
    pub open spec fn text(self) -> Seq<char> {
        match self {
            QuicPacketType::Initial => "Initial"@,
            QuicPacketType::ZeroRtt => "0-RTT"@,
            QuicPacketType::Handshake => "Handshake"@,
            QuicPacketType::Retry => "Retry"@,
            QuicPacketType::VersionNegotiation => "Version Negotiation"@,
            QuicPacketType::OneRtt => "1-RTT"@,
            QuicPacketType::Unknown => "Unknown"@,
        }
    }

    pub fn to_text(&self) -> (s: String)
        ensures
            s@ == self.text(),
    {
        match self {
            QuicPacketType::Initial => "Initial".to_owned(),
            QuicPacketType::ZeroRtt => "0-RTT".to_owned(),
            QuicPacketType::Handshake => "Handshake".to_owned(),
            QuicPacketType::Retry => "Retry".to_owned(),
            QuicPacketType::VersionNegotiation => "Version Negotiation".to_owned(),
            QuicPacketType::OneRtt => "1-RTT".to_owned(),
            QuicPacketType::Unknown => "Unknown".to_owned(),
        }
    }
}

#[derive(Debug, Clone, Copy, PartialEq, Eq, Structural)]
pub enum QuicConnectionState {
    Initial,
    Handshaking,
    Connected,
    Draining,
    Closed,
    Unknown,
}

impl QuicConnectionState {
    pub open spec fn text(self) -> Seq<char> {
        match self {
            QuicConnectionState::Initial => "Initial"@,
            QuicConnectionState::Handshaking => "Handshaking"@,
            QuicConnectionState::Connected => "Connected"@,
            QuicConnectionState::Draining => "Draining"@,
            QuicConnectionState::Closed => "Closed"@,
            QuicConnectionState::Unknown => "Unknown"@,
        }
    }

    pub fn to_text(&self) -> (s: String)
        ensures
            s@ == self.text(),
    {
        match self {
            QuicConnectionState::Initial => "Initial".to_owned(),
            QuicConnectionState::Handshaking => "Handshaking".to_owned(),
            QuicConnectionState::Connected => "Connected".to_owned(),
            QuicConnectionState::Draining => "Draining".to_owned(),
            QuicConnectionState::Closed => "Closed".to_owned(),
            QuicConnectionState::Unknown => "Unknown".to_owned(),
        }
    }
}

/// The name of a QUIC version number, where it has one.
pub open spec fn quic_version_text(version: u32) -> Option<Seq<char>> {
    if version == 0x00000001 {
        Some("v1"@)
    } else if version == 0x6b3343cf {
        Some("v2"@)
    } else if version == 0xff00001d {
        Some("draft-29"@)
    } else if version == 0xff00001c {
        Some("draft-28"@)
    } else if version == 0xff00001b {
        Some("draft-27"@)
    } else if version == 0x51303530 {
        Some("Q050"@)
    } else if version == 0x54303530 {
        Some("T050"@)
    } else if version / 256 == 0xff0000 {
        Some("draft-"@ + decimal_text((version % 256) as nat))
    } else {
        None
    }
}

pub fn quic_version_to_string(version: u32) -> (r: Option<String>)
    ensures
        match quic_version_text(version) {
            Some(t) => r is Some && r->Some_0@ == t,
            None => r is None,
        },
{
    if version == 0x00000001 {
        Some("v1".to_owned())
    } else if version == 0x6b3343cf {
        Some("v2".to_owned())
    } else if version == 0xff00001d {
        Some("draft-29".to_owned())
    } else if version == 0xff00001c {
        Some("draft-28".to_owned())
    } else if version == 0xff00001b {
        Some("draft-27".to_owned())
    } else if version == 0x51303530 {
        Some("Q050".to_owned())
    } else if version == 0x54303530 {
        Some("T050".to_owned())
    } else if version / 256 == 0xff0000 {
        let mut out: Vec<char> = Vec::new();
        push_str(&mut out, "draft-");
        push_decimal(&mut out, (version % 256) as u64);
        assert(out@ =~= "draft-"@ + decimal_text((version % 256) as nat));
        Some(from_chars(&out))
    } else {
        None
    }
}

/// What is known of a QUIC flow.
#[derive(Debug)]
pub struct QuicInfo {
    pub version_string: Option<String>,
    pub packet_type: QuicPacketType,
    pub connection_id: Vec<u8>,
    pub connection_id_hex: Option<String>,
    pub connection_state: QuicConnectionState,
    pub tls_info: Option<TlsInfo>,
    pub has_crypto_frame: bool,
    pub crypto_reassembler: Option<CryptoFrameReassembler>,
}

/// A `QuicInfo` as a value.
pub struct QuicInfoView {
    pub version_string: Option<Seq<char>>,
    pub packet_type: QuicPacketType,
    pub connection_id: Seq<u8>,
    pub connection_id_hex: Option<Seq<char>>,
    pub connection_state: QuicConnectionState,
    pub tls_info: Option<TlsInfoView>,
    pub has_crypto_frame: bool,
    pub crypto_reassembler: Option<ReassemblerView>,
}

/// The value of an optional reassembler.
pub open spec fn opt_reassembler_view(o: Option<CryptoFrameReassembler>) -> Option<
    ReassemblerView,
> {
    match o {
        Some(r) => Some(r@),
        None => None,
    }
}

impl View for QuicInfo {
    type V = QuicInfoView;

    open spec fn view(&self) -> QuicInfoView {
        QuicInfoView {
            version_string: opt_text(self.version_string),
            packet_type: self.packet_type,
            connection_id: self.connection_id@,
            connection_id_hex: opt_text(self.connection_id_hex),
            connection_state: self.connection_state,
            tls_info: opt_tls_view(self.tls_info),
            has_crypto_frame: self.has_crypto_frame,
            crypto_reassembler: opt_reassembler_view(self.crypto_reassembler),
        }
    }
}

impl Clone for QuicInfo {
    fn clone(&self) -> (r: Self)
        ensures
            r@ == self@,
    {
        let reassembler = match &self.crypto_reassembler {
            Some(r) => Some(r.clone()),
            None => None,
        };
        Self {
            version_string: clone_opt_string(&self.version_string),
            packet_type: self.packet_type,
            connection_id: clone_bytes(&self.connection_id),
            connection_id_hex: clone_opt_string(&self.connection_id_hex),
            connection_state: self.connection_state,
            tls_info: clone_opt_tls(&self.tls_info),
            has_crypto_frame: self.has_crypto_frame,
            crypto_reassembler: reassembler,
        }
    }
}

impl QuicInfo {
    /// What is known of a QUIC flow of the given version before any packet was read.
    pub fn new(version: u32) -> (r: Self)
        ensures
            r@ == (QuicInfoView {
                version_string: quic_version_text(version),
                packet_type: QuicPacketType::Unknown,
                connection_id: Seq::empty(),
                connection_id_hex: None,
                connection_state: QuicConnectionState::Unknown,
                tls_info: None,
                has_crypto_frame: false,
                crypto_reassembler: None,
            }),
    {
        let r = Self {
            version_string: quic_version_to_string(version),
            connection_id_hex: None,
            packet_type: QuicPacketType::Unknown,
            connection_id: Vec::new(),
            connection_state: QuicConnectionState::Unknown,
            tls_info: None,
            has_crypto_frame: false,
            crypto_reassembler: None,
        };
        assert(r@.connection_id =~= Seq::empty());
        r
    }

    /// Gives the flow an empty reassembler, made at the time `now`, where it has none.
    pub fn ensure_reassembler(&mut self, now: u64)
        ensures
            final(self)@ == (QuicInfoView {
                crypto_reassembler: match old(self)@.crypto_reassembler {
                    Some(r) => Some(r),
                    None => Some(
                        ReassemblerView {
                            fragments: Seq::empty(),
                            offset: 0,
                            buffered: 0,
                            capacity: MAX_BUFFER_SIZE as nat,
                            updated_at: now,
                            tls_info: None,
                        },
                    ),
                },
                ..old(self)@
            }),
    {
        if self.crypto_reassembler.is_none() {
            self.crypto_reassembler = Some(CryptoFrameReassembler::new(now));
        }
    }
}

/// The application protocol that a flow was found to speak.
#[derive(Debug)]
pub enum ApplicationProtocol {
    Http(HttpInfo),
    Https(HttpsInfo),
    Dns(DnsInfo),
    Ssh,
    Quic(QuicInfo),
}

/// An `ApplicationProtocol` as a value.
pub enum ApplicationProtocolView {
    Http(HttpInfoView),
    Https(HttpsInfoView),
    Dns(DnsInfoView),
    Ssh,
    Quic(QuicInfoView),
}

/// A protocol's name, with a host name in brackets behind it where one is known.
pub open spec fn named(name: Seq<char>, host: Option<Seq<char>>) -> Seq<char> {
    match host {
        Some(h) => name + " ("@ + h + ")"@,
        None => name,
    }
}

/// The server name of a TLS handshake, where one is known.
pub open spec fn sni_of(tls: Option<TlsInfoView>) -> Option<Seq<char>> {
    match tls {
        Some(t) => t.sni,
        None => None,
    }
}

impl ApplicationProtocolView {
    /// The protocol as it is shown on screen.
    pub open spec fn text(self) -> Seq<char> {
        match self {
            ApplicationProtocolView::Http(info) => named("HTTP"@, info.host),
            ApplicationProtocolView::Https(info) => named("HTTPS"@, sni_of(info.tls_info)),
            ApplicationProtocolView::Dns(info) => named("DNS"@, info.query_name),
            ApplicationProtocolView::Ssh => "SSH"@,
            ApplicationProtocolView::Quic(info) => named("QUIC"@, sni_of(info.tls_info)),
        }
    }
}

impl View for ApplicationProtocol {
    type V = ApplicationProtocolView;

    open spec fn view(&self) -> ApplicationProtocolView {
        match self {
            ApplicationProtocol::Http(info) => ApplicationProtocolView::Http(info@),
            ApplicationProtocol::Https(info) => ApplicationProtocolView::Https(info@),
            ApplicationProtocol::Dns(info) => ApplicationProtocolView::Dns(info@),
            ApplicationProtocol::Ssh => ApplicationProtocolView::Ssh,
            ApplicationProtocol::Quic(info) => ApplicationProtocolView::Quic(info@),
        }
    }
}

impl Clone for ApplicationProtocol {
    fn clone(&self) -> (r: Self)
        ensures
            r@ == self@,
    {
        match self {
            ApplicationProtocol::Http(info) => ApplicationProtocol::Http(info.clone()),
            ApplicationProtocol::Https(info) => ApplicationProtocol::Https(info.clone()),
            ApplicationProtocol::Dns(info) => ApplicationProtocol::Dns(info.clone()),
            ApplicationProtocol::Ssh => ApplicationProtocol::Ssh,
            ApplicationProtocol::Quic(info) => ApplicationProtocol::Quic(info.clone()),
        }
    }
}

fn named_text(name: &str, host: Option<&String>) -> (s: String)
    ensures
        s@ == named(name@, match host {
            Some(h) => Some(h@),
            None => None,
        }),
{
    let mut s = name.to_owned();
    match host {
        Some(h) => {
            s.append(" (");
            s.append(h.as_str());
            s.append(")");
        },
        None => {},
    }
    s
}

fn sni_ref(tls: &Option<TlsInfo>) -> (r: Option<&String>)
    ensures
        sni_of(opt_tls_view(*tls)) == match r {
            Some(h) => Some(h@),
            None => None,
        },
{
    match tls {
        Some(t) => t.sni.as_ref(),
        None => None,
    }
}

impl ApplicationProtocol {
    /// The protocol as it is shown on screen.
    pub fn to_text(&self) -> (s: String)
        ensures
            s@ == self@.text(),
    {
        match self {
            ApplicationProtocol::Http(info) => named_text("HTTP", info.host.as_ref()),
            ApplicationProtocol::Https(info) => named_text("HTTPS", sni_ref(&info.tls_info)),
            ApplicationProtocol::Dns(info) => named_text("DNS", info.query_name.as_ref()),
            ApplicationProtocol::Ssh => "SSH".to_owned(),
            ApplicationProtocol::Quic(info) => named_text("QUIC", sni_ref(&info.tls_info)),
        }
    }
}

/// The application of a flow, and when it was found.
#[derive(Debug)]
pub struct DpiInfo {
    pub application: ApplicationProtocol,
    pub first_packet_time: u64,
    pub last_update_time: u64,
}

/// A `DpiInfo` as a value.
pub struct DpiInfoView {
    pub application: ApplicationProtocolView,
    pub first_packet_time: u64,
    pub last_update_time: u64,
}

impl View for DpiInfo {
    type V = DpiInfoView;

    open spec fn view(&self) -> DpiInfoView {
        DpiInfoView {
            application: self.application@,
            first_packet_time: self.first_packet_time,
            last_update_time: self.last_update_time,
        }
    }
}

impl Clone for DpiInfo {
    fn clone(&self) -> (r: Self)
        ensures
            r@ == self@,
    {
        Self {
            application: self.application.clone(),
            first_packet_time: self.first_packet_time,
            last_update_time: self.last_update_time,
        }
    }
}

/// The value of an optional `DpiInfo`.
pub open spec fn opt_dpi_view(o: Option<DpiInfo>) -> Option<DpiInfoView> {
    match o {
        Some(d) => Some(d@),
        None => None,
    }
}

/// A copy of an optional `DpiInfo`.
pub fn clone_opt_dpi(o: &Option<DpiInfo>) -> (r: Option<DpiInfo>)
    ensures
        opt_dpi_view(r) == opt_dpi_view(*o),
{
    match o {
        Some(d) => Some(d.clone()),
        None => None,
    }
}


/// A flow that saw no packet for this many milliseconds is no longer active.
pub const ACTIVE_THRESHOLD_MS: u64 = 300000;

/// What is known of one flow.
#[derive(Debug)]
pub struct Connection {
    pub protocol: Protocol,
    pub local_addr: SocketAddress,
    pub remote_addr: SocketAddress,
    pub remote_host: Option<String>,
    pub protocol_state: ProtocolState,
    pub pid: Option<u32>,
    pub process_name: Option<String>,
    pub bytes_sent: u64,
    pub bytes_received: u64,
    pub packets_sent: u64,
    pub packets_received: u64,
    /// The time at which the flow was first seen, in milliseconds.
    pub created_at: u64,
    /// The time of the flow's last packet, in milliseconds.
    pub last_activity: u64,
    pub service_name: Option<String>,
    pub dpi_info: Option<DpiInfo>,
    /// The estimated round-trip time in milliseconds, where one was made.
    pub rtt_estimate: Option<u64>,
}

/// A `Connection` as a value.
pub struct ConnectionView {
    pub protocol: Protocol,
    pub local_addr: SocketAddress,
    pub remote_addr: SocketAddress,
    pub remote_host: Option<Seq<char>>,
    pub protocol_state: ProtocolState,
    pub pid: Option<u32>,
    pub process_name: Option<Seq<char>>,
    pub bytes_sent: u64,
    pub bytes_received: u64,
    pub packets_sent: u64,
    pub packets_received: u64,
    pub created_at: u64,
    pub last_activity: u64,
    pub service_name: Option<Seq<char>>,
    pub dpi_info: Option<DpiInfoView>,
    pub rtt_estimate: Option<u64>,
}

/// The identity of a flow: its protocol and its two ends.
pub struct FlowId {
    pub protocol: Protocol,
    pub local_addr: SocketAddress,
    pub remote_addr: SocketAddress,
}

/// The key under which the flow of the given identity is known.
pub open spec fn key_text(protocol: Protocol, local: SocketAddress, remote: SocketAddress) -> Seq<
    char,
> {
    protocol.text() + seq![':'] + local.text() + seq!['-'] + protocol.text() + seq![':']
        + remote.text()
}

impl ConnectionView {
    pub open spec fn flow(self) -> FlowId {
        FlowId {
            protocol: self.protocol,
            local_addr: self.local_addr,
            remote_addr: self.remote_addr,
        }
    }

    /// The last packet did not come before the flow was first seen.
    pub open spec fn well_timed(self) -> bool {
        self.last_activity >= self.created_at
    }

    pub open spec fn key(self) -> Seq<char> {
        key_text(self.protocol, self.local_addr, self.remote_addr)
    }

    /// The key of a QUIC flow with a known connection id; else the flow's key.
    pub open spec fn quic_key(self, connection_id_hex: Option<Seq<char>>) -> Seq<char> {
        match connection_id_hex {
            Some(id) if self.protocol == Protocol::UDP => "QUIC:"@ + id + seq![':']
                + self.local_addr.text() + seq!['-'] + self.remote_addr.text(),
            _ => self.key(),
        }
    }

    /// The milliseconds from the last packet to `now`; 0 where `now` is earlier.
    pub open spec fn idle(self, now: u64) -> int {
        if now >= self.last_activity {
            now - self.last_activity
        } else {
            0
        }
    }

    /// The milliseconds from the first packet to `now`; 0 where `now` is earlier.
    pub open spec fn age(self, now: u64) -> int {
        if now >= self.created_at {
            now - self.created_at
        } else {
            0
        }
    }

    pub open spec fn is_active(self, now: u64) -> bool {
        self.idle(now) < ACTIVE_THRESHOLD_MS
    }

    /// A UDP flow with port 443 at one end may be QUIC.
    pub open spec fn is_potential_quic(self) -> bool {
        self.protocol == Protocol::UDP && (self.local_addr.port == 443 || self.remote_addr.port
            == 443)
    }

    /// The application as it is shown on screen.
    pub open spec fn application_text(self) -> Seq<char> {
        match self.dpi_info {
            Some(dpi) => dpi.application.text(),
            None => if self.is_potential_quic() {
                "QUIC?"@
            } else {
                match self.service_name {
                    Some(name) => uppercase_text(name),
                    None => "Unknown"@,
                }
            },
        }
    }
}

impl View for Connection {
    type V = ConnectionView;

    open spec fn view(&self) -> ConnectionView {
        ConnectionView {
            protocol: self.protocol,
            local_addr: self.local_addr,
            remote_addr: self.remote_addr,
            remote_host: opt_text(self.remote_host),
            protocol_state: self.protocol_state,
            pid: self.pid,
            process_name: opt_text(self.process_name),
            bytes_sent: self.bytes_sent,
            bytes_received: self.bytes_received,
            packets_sent: self.packets_sent,
            packets_received: self.packets_received,
            created_at: self.created_at,
            last_activity: self.last_activity,
            service_name: opt_text(self.service_name),
            dpi_info: opt_dpi_view(self.dpi_info),
            rtt_estimate: self.rtt_estimate,
        }
    }
}

impl Clone for Connection {
    fn clone(&self) -> (r: Self)
        ensures
            r@ == self@,
    {
        Self {
            protocol: self.protocol,
            local_addr: self.local_addr,
            remote_addr: self.remote_addr,
            remote_host: clone_opt_string(&self.remote_host),
            protocol_state: self.protocol_state,
            pid: self.pid,
            process_name: clone_opt_string(&self.process_name),
            bytes_sent: self.bytes_sent,
            bytes_received: self.bytes_received,
            packets_sent: self.packets_sent,
            packets_received: self.packets_received,
            created_at: self.created_at,
            last_activity: self.last_activity,
            service_name: clone_opt_string(&self.service_name),
            dpi_info: clone_opt_dpi(&self.dpi_info),
            rtt_estimate: self.rtt_estimate,
        }
    }
}

/// Appends the key of the flow of the given identity to `out`.
pub fn push_key(out: &mut Vec<char>, protocol: Protocol, local: &SocketAddress, remote: &SocketAddress)
    ensures
        final(out)@ == old(out)@ + key_text(protocol, *local, *remote),
{
    push_str(out, protocol.name());
    out.push(':');
    local.push_text(out);
    out.push('-');
    push_str(out, protocol.name());
    out.push(':');
    remote.push_text(out);
    assert(out@ =~= old(out)@ + key_text(protocol, *local, *remote));
}

impl Connection {
    /// A flow first seen at the time `now`, of which no packet was counted yet.
    pub fn new(
        protocol: Protocol,
        local_addr: SocketAddress,
        remote_addr: SocketAddress,
        state: ProtocolState,
        now: u64,
    ) -> (r: Self)
        ensures
            r@ == (ConnectionView {
                protocol,
                local_addr,
                remote_addr,
                remote_host: None,
                protocol_state: state,
                pid: None,
                process_name: None,
                bytes_sent: 0,
                bytes_received: 0,
                packets_sent: 0,
                packets_received: 0,
                created_at: now,
                last_activity: now,
                service_name: None,
                dpi_info: None,
                rtt_estimate: None,
            }),
    {
        Self {
            protocol,
            local_addr,
            remote_addr,
            remote_host: None,
            protocol_state: state,
            pid: None,
            process_name: None,
            bytes_sent: 0,
            bytes_received: 0,
            packets_sent: 0,
            packets_received: 0,
            created_at: now,
            last_activity: now,
            service_name: None,
            dpi_info: None,
            rtt_estimate: None,
        }
    }

    /// The key under which the flow is known: `PROTOCOL:local-PROTOCOL:remote`.
    pub fn key(&self) -> (s: String)
        ensures
            s@ == self@.key(),
    {
        let mut out: Vec<char> = Vec::new();
        push_key(&mut out, self.protocol, &self.local_addr, &self.remote_addr);
        assert(out@ =~= self@.key());
        from_chars(&out)
    }

    /// Whether the flow saw a packet in the last five minutes before `now`.
    pub fn is_active(&self, now: u64) -> (r: bool)
        ensures
            r == self@.is_active(now),
    {
        self.idle_time(now) < ACTIVE_THRESHOLD_MS
    }

    /// The milliseconds from the first packet to `now`.
    pub fn age(&self, now: u64) -> (r: u64)
        ensures
            r == self@.age(now),
    {
        if now >= self.created_at {
            now - self.created_at
        } else {
            0
        }
    }

    /// The milliseconds from the last packet to `now`.
    pub fn idle_time(&self, now: u64) -> (r: u64)
        ensures
            r == self@.idle(now),
    {
        if now >= self.last_activity {
            now - self.last_activity
        } else {
            0
        }
    }

    /// The state as it is shown on screen.
    pub fn state(&self) -> (s: String)
        ensures
            s@ == self@.protocol_state.text(),
    {
        self.protocol_state.name().to_owned()
    }

    pub fn is_potential_quic(&self) -> (r: bool)
        ensures
            r == self@.is_potential_quic(),
    {
        self.protocol == Protocol::UDP && (self.local_addr.port == 443 || self.remote_addr.port
            == 443)
    }

    /// A key that stays the same while a QUIC flow changes its addresses' role: made of the
    /// connection id where the flow is UDP and an id is given, else the flow's own key.
    pub fn quic_key(&self, connection_id_hex: Option<&String>) -> (s: String)
        ensures
            s@ == self@.quic_key(
                match connection_id_hex {
                    Some(id) => Some(id@),
                    None => None,
                },
            ),
    {
        if self.protocol == Protocol::UDP {
            if let Some(conn_id) = connection_id_hex {
                let mut out: Vec<char> = Vec::new();
                push_str(&mut out, "QUIC:");
                push_str(&mut out, conn_id.as_str());
                out.push(':');
                self.local_addr.push_text(&mut out);
                out.push('-');
                self.remote_addr.push_text(&mut out);
                assert(out@ =~= "QUIC:"@ + conn_id@ + seq![':'] + self.local_addr.text() + seq![
                    '-',
                ] + self.remote_addr.text());
                return from_chars(&out);
            }
        }
        self.key()
    }

    /// The application as it is shown on screen: what inspection found; else `QUIC?` for a
    /// flow that may be QUIC; else the service's name in capitals; else `Unknown`.
    pub fn application_display(&self) -> (s: String)
        ensures
            s@ == self@.application_text(),
    {
        if let Some(dpi) = &self.dpi_info {
            dpi.application.to_text()
        } else if self.is_potential_quic() {
            "QUIC?".to_owned()
        } else {
            match &self.service_name {
                Some(name) => to_uppercase(name.as_str()),
                None => "Unknown".to_owned(),
            }
        }
    }
}

} // verus!
