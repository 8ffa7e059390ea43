//! How the handshake fragments of QUIC packets reach the reassembler of their flow.

use vstd::prelude::*;
use crate::network::dpi::DpiResultView;
use crate::network::parser::{ParsedPacket, ParsedPacketView};
use crate::network::reassembly::{
    pieces, CryptoFrameReassembler, Fragment, FragmentView, ReassemblerView, MAX_BUFFER_SIZE,
};
use crate::network::types::{
    ApplicationProtocol, ApplicationProtocolView, Connection, ConnectionView, DpiInfo, DpiInfoView,
    QuicInfo, QuicInfoView, TlsInfo, TlsInfoView,
};
use crate::text::clone_bytes;

verus! {

/// An empty reassembler made at the time `now`.
pub open spec fn empty_reassembler(now: u64) -> ReassemblerView {
    ReassemblerView {
        fragments: Seq::empty(),
        offset: 0,
        buffered: 0,
        capacity: MAX_BUFFER_SIZE as nat,
        updated_at: now,
        tls_info: None,
    }
}

/// The reassembler after it has looked at each of the fragments in turn at the time `now`.
pub open spec fn fed_each(r: ReassemblerView, frags: Seq<FragmentView>, now: u64) -> ReassemblerView
    decreases frags.len(),
{
    if frags.len() == 0 {
        r
    } else {
        fed_each(r, frags.drop_last(), now).with_fragment(
            frags.last().offset,
            frags.last().data,
            now,
        )
    }
}

/// The reassembler after a packet's fragments came in at the time `now`. One that has
/// read the handshake in full takes in nothing more.
pub open spec fn fed(r: ReassemblerView, frags: Seq<FragmentView>, now: u64) -> ReassemblerView {
    if r.tls_info is Some {
        r
    } else {
        fed_each(r, frags, now)
    }
}

/// Hands the fragments that came with one packet to the reassembler of the packet's flow.
/// A fragment for which the buffer has no room is left out; the others are still looked at.
pub fn feed_fragments(r: &mut CryptoFrameReassembler, incoming: &Vec<Fragment>, now: u64)
    requires
        forall|i: int|
            0 <= i < incoming@.len() ==> (#[trigger] pieces(incoming@)[i]).end() <= u64::MAX,
    ensures
        final(r)@ == fed(old(r)@, pieces(incoming@), now),
{
    if r.has_complete_tls_info() {
        return ;
    }
    let ghost ps = pieces(incoming@);
    let mut i: usize = 0;
    assert(ps.subrange(0, 0) =~= Seq::<FragmentView>::empty());
    while i < incoming.len()
        invariant
            i <= incoming.len(),
            ps == pieces(incoming@),
            forall|k: int| 0 <= k < ps.len() ==> (#[trigger] ps[k]).end() <= u64::MAX,
            r@ == fed_each(old(r)@, ps.subrange(0, i as int), now),
        decreases incoming.len() - i,
    {
        let f = &incoming[i];
        assert(ps[i as int] == f@);
        assert(ps.subrange(0, i + 1).drop_last() =~= ps.subrange(0, i as int));
        assert(ps.subrange(0, i + 1).last() == ps[i as int]);
        let _ = r.add_fragment(f.offset, clone_bytes(&f.data), now);
        i = i + 1;
    }
    assert(ps.subrange(0, i as int) =~= ps);
}

/// The QUIC record of a flow after the fragments that came with a packet's record
/// `theirs` were handed to its reassembler, which is made where the flow had none.
pub open spec fn quic_fed(mine: QuicInfoView, theirs: QuicInfoView, now: u64) -> QuicInfoView {
    match theirs.crypto_reassembler {
        Some(incoming) => QuicInfoView {
            crypto_reassembler: Some(
                fed(
                    match mine.crypto_reassembler {
                        Some(r) => r,
                        None => empty_reassembler(now),
                    },
                    incoming.fragments,
                    now,
                ),
            ),
            ..mine
        },
        None => mine,
    }
}

/// The fragments of the packet `p`, where it is a QUIC packet that brought any.
pub open spec fn quic_of(p: ParsedPacketView) -> Option<QuicInfoView> {
    match p.dpi_result {
        Some(DpiResultView { application: ApplicationProtocolView::Quic(info) }) => Some(info),
        _ => None,
    }
}

/// The flow `c` after the handshake fragments of the packet `p` were handed to its
/// reassembler. Only a flow that may be QUIC and is known as QUIC takes them.
pub open spec fn with_handshake(c: ConnectionView, p: ParsedPacketView, now: u64) -> ConnectionView {
    match (c.dpi_info, quic_of(p)) {
        (
            Some(
                DpiInfoView {
                    application: ApplicationProtocolView::Quic(mine),
                    first_packet_time,
                    last_update_time,
                },
            ),
            Some(theirs),
        ) if c.is_potential_quic() => ConnectionView {
            dpi_info: Some(
                DpiInfoView {
                    application: ApplicationProtocolView::Quic(quic_fed(mine, theirs, now)),
                    first_packet_time,
                    last_update_time,
                },
            ),
            ..c
        },
        _ => c,
    }
}

fn feed_quic_info(mine: QuicInfo, theirs: &QuicInfo, now: u64) -> (r: QuicInfo)
    ensures
        r@ == quic_fed(mine@, theirs@, now),
{
    match &theirs.crypto_reassembler {
        Some(incoming) => {
            let mut mine = mine;
            let mut reassembler = match mine.crypto_reassembler {
                Some(r) => r,
                None => CryptoFrameReassembler::new(now),
            };
            let frags = incoming.get_fragments();
            feed_fragments(&mut reassembler, frags, now);
            mine.crypto_reassembler = Some(reassembler);
            mine
        },
        None => mine,
    }
}

/// Hands the handshake fragments that came with the packet to the flow's reassembler.
pub fn feed_handshake(conn: Connection, parsed: &ParsedPacket, now: u64) -> (r: Connection)
    ensures
        r@ == with_handshake(conn@, parsed@, now),
{
    if !conn.is_potential_quic() {
        return conn;
    }
    let theirs: &QuicInfo = match &parsed.dpi_result {
        Some(result) => match &result.application {
            ApplicationProtocol::Quic(info) => info,
            _ => {
                return conn;
            },
        },
        None => {
            return conn;
        },
    };
    let mut conn = conn;
    match conn.dpi_info {
        Some(dpi) => {
            let first_packet_time = dpi.first_packet_time;
            let last_update_time = dpi.last_update_time;
            match dpi.application {
                ApplicationProtocol::Quic(mine) => {
                    conn.dpi_info = Some(
                        DpiInfo {
                            application: ApplicationProtocol::Quic(
                                feed_quic_info(mine, theirs, now),
                            ),
                            first_packet_time,
                            last_update_time,
                        },
                    );
                },
                other => {
                    conn.dpi_info = Some(
                        DpiInfo { application: other, first_packet_time, last_update_time },
                    );
                },
            }
        },
        None => {
            conn.dpi_info = None;
        },
    }
    conn
}

/// The reassembler of a flow that is known as QUIC, where it has one.
pub open spec fn reassembler_of(c: ConnectionView) -> Option<ReassemblerView> {
    match c.dpi_info {
        Some(DpiInfoView { application: ApplicationProtocolView::Quic(info), .. }) =>
            info.crypto_reassembler,
        _ => None,
    }
}

/// The handshake bytes of a flow that wait to be read: what its reassembler holds from
/// the start of the stream, unless the handshake was read in full before.
pub open spec fn pending_bytes(c: ConnectionView) -> Option<Seq<u8>> {
    match reassembler_of(c) {
        Some(r) => if r.tls_info is None && r.contiguous_bytes().len() > 0 {
            Some(r.contiguous_bytes())
        } else {
            None
        },
        None => None,
    }
}

/// The handshake bytes of the flow that wait to be read, if any.
pub fn pending_handshake(conn: &Connection) -> (r: Option<Vec<u8>>)
    ensures
        match r {
            Some(v) => pending_bytes(conn@) == Some(v@),
            None => pending_bytes(conn@) is None,
        },
{
    match &conn.dpi_info {
        Some(dpi) => match &dpi.application {
            ApplicationProtocol::Quic(info) => match &info.crypto_reassembler {
                Some(r) => {
                    if r.has_complete_tls_info() {
                        None
                    } else {
                        r.get_contiguous_data()
                    }
                },
                None => None,
            },
            _ => None,
        },
        None => None,
    }
}

/// The flow `c` after its handshake was read in full and told `tls`: the QUIC record
/// names `tls`, and the reassembler keeps it and lets its fragments go. A flow without a
/// reassembler stays as it is.
pub open spec fn with_tls(c: ConnectionView, tls: TlsInfoView) -> ConnectionView {
    match c.dpi_info {
        Some(
            DpiInfoView {
                application: ApplicationProtocolView::Quic(info),
                first_packet_time,
                last_update_time,
            },
        ) => match info.crypto_reassembler {
            Some(r) => ConnectionView {
                dpi_info: Some(
                    DpiInfoView {
                        application: ApplicationProtocolView::Quic(
                            QuicInfoView {
                                tls_info: Some(tls),
                                crypto_reassembler: Some(
                                    ReassemblerView {
                                        tls_info: Some(tls),
                                        fragments: Seq::empty(),
                                        buffered: 0,
                                        ..r
                                    },
                                ),
                                ..info
                            },
                        ),
                        first_packet_time,
                        last_update_time,
                    },
                ),
                ..c
            },
            None => c,
        },
        _ => c,
    }
}

/// Notes on the flow what its handshake, read in full, told.
pub fn complete_handshake(conn: Connection, tls_info: TlsInfo) -> (r: Connection)
    ensures
        r@ == with_tls(conn@, tls_info@),
{
    let mut conn = conn;
    match conn.dpi_info {
        Some(dpi) => {
            let first_packet_time = dpi.first_packet_time;
            let last_update_time = dpi.last_update_time;
            match dpi.application {
                ApplicationProtocol::Quic(info) => {
                    let mut info = info;
                    match info.crypto_reassembler {
                        Some(r) => {
                            let mut r = r;
                            r.set_complete_tls_info(tls_info.clone());
                            r.clear_fragments();
                            info.crypto_reassembler = Some(r);
                            info.tls_info = Some(tls_info);
                        },
                        None => {
                            info.crypto_reassembler = None;
                        },
                    }
                    conn.dpi_info = Some(
                        DpiInfo {
                            application: ApplicationProtocol::Quic(info),
                            first_packet_time,
                            last_update_time,
                        },
                    );
                },
                other => {
                    conn.dpi_info = Some(
                        DpiInfo { application: other, first_packet_time, last_update_time },
                    );
                },
            }
        },
        None => {
            conn.dpi_info = None;
        },
    }
    conn
}

} // verus!
