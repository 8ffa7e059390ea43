//! The reassembler of handshake bytes that come in fragments, in any order.

use vstd::prelude::*;
use crate::network::types::{clone_opt_tls, opt_tls_view, TlsInfo, TlsInfoView};
use crate::text::clone_bytes;

verus! {

/// The most bytes that one reassembler holds.
pub const MAX_BUFFER_SIZE: usize = 65536;

/// A reassembler that saw no fragment for longer than this many milliseconds is stale.
pub const STALE_AFTER_MS: u64 = 30000;

/// The error of a fragment that does not fit into the buffer.
pub const BUFFER_LIMIT: &'static str = "Fragment would exceed maximum buffer size";

/// A run of handshake bytes and the place in the stream where it starts.
#[derive(Debug, Clone)]
pub struct Fragment {
    pub offset: u64,
    pub data: Vec<u8>,
}

/// A fragment as a value: where it starts in the stream, and its bytes.
pub struct FragmentView {
    pub offset: u64,
    pub data: Seq<u8>,
}

impl View for Fragment {
    type V = FragmentView;

    open spec fn view(&self) -> FragmentView {
        FragmentView { offset: self.offset, data: self.data@ }
    }
}

impl FragmentView {
    pub open spec fn start(self) -> int {
        self.offset as int
    }

    /// The place in the stream just behind the fragment's last byte.
    pub open spec fn end(self) -> int {
        self.offset + self.data.len()
    }
}

/// The fragments of `frags` as values, in the same order.
pub open spec fn pieces(frags: Seq<Fragment>) -> Seq<FragmentView> {
    Seq::new(frags.len(), |i: int| frags[i]@)
}

/// Whether one of the fragments holds the byte at place `b` of the stream.
pub open spec fn covers(frags: Seq<FragmentView>, b: int) -> bool {
    exists|i: int| 0 <= i < frags.len() && (#[trigger] frags[i]).start() <= b && b < frags[i].end()
}

/// Whether one of the fragments holds the byte `v` at place `b` of the stream.
pub open spec fn holds_byte(frags: Seq<FragmentView>, b: int, v: u8) -> bool {
    exists|i: int|
        0 <= i < frags.len() && (#[trigger] frags[i]).start() <= b && b < frags[i].end()
            && frags[i].data[b - frags[i].start()] == v
}

/// Whether the fragments hold every byte from `from` up to `to`, and not the byte at `to`.
pub open spec fn is_contiguous_end(frags: Seq<FragmentView>, from: int, to: int) -> bool {
    &&& from <= to
    &&& forall|b: int| from <= b < to ==> covers(frags, b)
    &&& !covers(frags, to)
}

/// The first place of the stream at or behind `from` that no fragment holds.
pub open spec fn next_gap(frags: Seq<FragmentView>, from: int) -> int {
    choose|to: int| is_contiguous_end(frags, from, to)
}

/// There is one place at most up to which the fragments hold the stream from `from` on.
pub proof fn lemma_next_gap(frags: Seq<FragmentView>, from: int, to: int)
    requires
        is_contiguous_end(frags, from, to),
    ensures
        next_gap(frags, from) == to,
{
    let other = next_gap(frags, from);
    assert(is_contiguous_end(frags, from, other));
    if other < to {
        assert(covers(frags, other));
    }
    if to < other {
        assert(covers(frags, to));
    }
}

/// The fragments stand in the order of their offsets, no two at one offset, none reaching
/// into the next.
pub open spec fn ordered(frags: Seq<FragmentView>) -> bool {
    forall|i: int, j: int|
        0 <= i < j < frags.len() ==> (#[trigger] frags[i]).offset < (#[trigger] frags[j]).offset
            && frags[i].end() <= frags[j].start()
}

/// The number of bytes that the fragments hold together.
pub open spec fn total_len(frags: Seq<FragmentView>) -> nat
    decreases frags.len(),
{
    if frags.len() == 0 {
        0
    } else {
        total_len(frags.drop_last()) + frags.last().data.len()
    }
}

/// Whether a new fragment of `len` bytes at `offset` has to give way to the stored
/// fragment `f`: it repeats `f`, shares a byte with it, or is an empty fragment at its offset.
pub open spec fn clashes(f: FragmentView, offset: u64, len: nat) -> bool {
    ||| offset == f.offset && (len == f.data.len() || len == 0)
    ||| offset < f.end() && offset + len > f.start()
}

pub open spec fn any_clash(frags: Seq<FragmentView>, offset: u64, len: nat) -> bool {
    exists|i: int| 0 <= i < frags.len() && clashes(#[trigger] frags[i], offset, len)
}

/// The number of fragments that start before `offset`.
pub open spec fn rank(frags: Seq<FragmentView>, offset: u64) -> int
    decreases frags.len(),
{
    if frags.len() == 0 {
        0
    } else {
        rank(frags.drop_last(), offset) + if frags.last().offset < offset {
            1int
        } else {
            0int
        }
    }
}

/// The fragments after `f` is stored: `f` stands at its place in the order of offsets,
/// and takes the place of a fragment that stood at its offset.
pub open spec fn stored(frags: Seq<FragmentView>, f: FragmentView) -> Seq<FragmentView> {
    let p = rank(frags, f.offset);
    if p < frags.len() && frags[p].offset == f.offset {
        frags.update(p, f)
    } else {
        frags.insert(p, f)
    }
}

/// The bytes of the fragments that follow one another without a gap from place `cur` of
/// the stream, up to the first fragment that ends at or behind `limit`.
pub open spec fn chain_bytes(frags: Seq<FragmentView>, cur: int, limit: int) -> Seq<u8>
    decreases frags.len(),
{
    if frags.len() == 0 || cur >= limit {
        Seq::empty()
    } else if frags[0].start() == cur && frags[0].data.len() > 0 {
        frags[0].data + chain_bytes(frags.drop_first(), frags[0].end(), limit)
    } else {
        chain_bytes(frags.drop_first(), cur, limit)
    }
}

proof fn lemma_rank_bounds(frags: Seq<FragmentView>, offset: u64)
    requires
        ordered(frags),
    ensures
        0 <= rank(frags, offset) <= frags.len(),
        forall|i: int| 0 <= i < rank(frags, offset) ==> (#[trigger] frags[i]).offset < offset,
        forall|i: int|
            rank(frags, offset) <= i < frags.len() ==> (#[trigger] frags[i]).offset >= offset,
    decreases frags.len(),
{
    if frags.len() > 0 {
        let rest = frags.drop_last();
        lemma_rank_bounds(rest, offset);
        assert forall|i: int| 0 <= i < rank(frags, offset) implies (#[trigger] frags[i]).offset
            < offset by {
            if i < rest.len() {
                if i >= rank(rest, offset) {
                    assert(rest[i].offset >= offset);
                    assert(frags.last().offset < offset);
                    assert(frags[i].offset < frags[frags.len() - 1].offset);
                } else {
                    assert(rest[i].offset < offset);
                }
            }
        }
        assert forall|i: int| rank(frags, offset) <= i < frags.len() implies (
        #[trigger] frags[i]).offset >= offset by {
            if i < rest.len() {
                assert(rest[i].offset >= offset);
            } else {
                if frags.last().offset < offset {
                    assert(rank(frags, offset) == rank(rest, offset) + 1);
                    if rank(rest, offset) < rest.len() {
                        let k = rank(rest, offset);
                        assert(rest[k].offset >= offset);
                        assert(frags[k].offset < frags[frags.len() - 1].offset);
                    }
                }
            }
        }
    }
}

proof fn lemma_total_len_insert(frags: Seq<FragmentView>, p: int, f: FragmentView)
    requires
        0 <= p <= frags.len(),
    ensures
        total_len(frags.insert(p, f)) == total_len(frags) + f.data.len(),
    decreases frags.len(),
{
    let g = frags.insert(p, f);
    if p == frags.len() {
        assert(g.drop_last() =~= frags);
    } else {
        lemma_total_len_insert(frags.drop_last(), p, f);
        assert(g.drop_last() =~= frags.drop_last().insert(p, f));
    }
}

proof fn lemma_total_len_update(frags: Seq<FragmentView>, p: int, f: FragmentView)
    requires
        0 <= p < frags.len(),
    ensures
        total_len(frags.update(p, f)) == total_len(frags) - frags[p].data.len() + f.data.len(),
    decreases frags.len(),
{
    let g = frags.update(p, f);
    if p == frags.len() - 1 {
        assert(g.drop_last() =~= frags.drop_last());
    } else {
        lemma_total_len_update(frags.drop_last(), p, f);
        assert(g.drop_last() =~= frags.drop_last().update(p, f));
    }
}

/// Storing a fragment that clashes with none keeps the order, adds its bytes to the
/// total, and leaves every byte held that was held before.
#[verifier::rlimit(50)]
pub proof fn lemma_stored(frags: Seq<FragmentView>, f: FragmentView)
    requires
        ordered(frags),
        !any_clash(frags, f.offset, f.data.len()),
    ensures
        ordered(stored(frags, f)),
        total_len(stored(frags, f)) == total_len(frags) + f.data.len(),
        forall|b: int| covers(frags, b) ==> covers(stored(frags, f), b),
        forall|b: int|
            covers(stored(frags, f), b) <==> covers(frags, b) || f.start() <= b < f.end(),
{
    lemma_rank_bounds(frags, f.offset);
    let p = rank(frags, f.offset);
    let g = stored(frags, f);
    assert forall|i: int| 0 <= i < frags.len() implies !clashes(
        #[trigger] frags[i],
        f.offset,
        f.data.len(),
    ) by {}
    if p < frags.len() && frags[p].offset == f.offset {
        assert(!clashes(frags[p], f.offset, f.data.len()));
        assert(frags[p].data.len() == 0);
        lemma_total_len_update(frags, p, f);
        assert forall|i: int, j: int| 0 <= i < j < g.len() implies (#[trigger] g[i]).offset < (
        #[trigger] g[j]).offset && g[i].end() <= g[j].start() by {
            assert(!clashes(frags[i], f.offset, f.data.len()));
            assert(!clashes(frags[j], f.offset, f.data.len()));
            assert(frags[i].offset < frags[j].offset);
            if i == p {
                assert(frags[p].offset < frags[j].offset);
            }
            if j == p {
                assert(frags[i].offset < frags[p].offset);
            }
        }
        assert forall|b: int| covers(g, b) <==> covers(frags, b) || f.start() <= b < f.end() by {
            if covers(frags, b) {
                let i = choose|i: int|
                    0 <= i < frags.len() && (#[trigger] frags[i]).start() <= b && b
                        < frags[i].end();
                assert(i != p);
                assert(g[i] == frags[i]);
            }
            if f.start() <= b < f.end() {
                assert(g[p] == f);
            }
            if covers(g, b) {
                let i = choose|i: int|
                    0 <= i < g.len() && (#[trigger] g[i]).start() <= b && b < g[i].end();
                if i != p {
                    assert(g[i] == frags[i]);
                }
            }
        }
    } else {
        lemma_total_len_insert(frags, p, f);
        assert forall|i: int, j: int| 0 <= i < j < g.len() implies (#[trigger] g[i]).offset < (
        #[trigger] g[j]).offset && g[i].end() <= g[j].start() by {
            if i < p && j < p {
                assert(g[i] == frags[i] && g[j] == frags[j]);
            } else if i < p && j == p {
                assert(g[i] == frags[i]);
                assert(!clashes(frags[i], f.offset, f.data.len()));
            } else if i < p && j > p {
                assert(g[i] == frags[i] && g[j] == frags[j - 1]);
            } else if i == p {
                assert(g[j] == frags[j - 1]);
                assert(!clashes(frags[j - 1], f.offset, f.data.len()));
                assert(frags[j - 1].offset >= f.offset);
            } else {
                assert(g[i] == frags[i - 1] && g[j] == frags[j - 1]);
            }
        }
        assert forall|b: int| covers(g, b) <==> covers(frags, b) || f.start() <= b < f.end() by {
            if covers(frags, b) {
                let i = choose|i: int|
                    0 <= i < frags.len() && (#[trigger] frags[i]).start() <= b && b
                        < frags[i].end();
                if i < p {
                    assert(g[i] == frags[i]);
                } else {
                    assert(g[i + 1] == frags[i]);
                }
            }
            if f.start() <= b < f.end() {
                assert(g[p] == f);
            }
            if covers(g, b) {
                let i = choose|i: int|
                    0 <= i < g.len() && (#[trigger] g[i]).start() <= b && b < g[i].end();
                if i < p {
                    assert(g[i] == frags[i]);
                } else if i > p {
                    assert(g[i] == frags[i - 1]);
                }
            }
        }
    }
}



fn find_clash(frags: &Vec<Fragment>, offset: u64, len: usize) -> (r: bool)
    requires
        offset + len <= u64::MAX,
        forall|i: int| 0 <= i < frags@.len() ==> (#[trigger] pieces(frags@)[i]).end() <= u64::MAX,
    ensures
        r == any_clash(pieces(frags@), offset, len as nat),
{
    let end: u64 = offset + len as u64;
    let mut i: usize = 0;
    while i < frags.len()
        invariant
            i <= frags.len(),
            end == offset + len,
            forall|k: int|
                0 <= k < frags@.len() ==> (#[trigger] pieces(frags@)[k]).end() <= u64::MAX,
            forall|k: int|
                0 <= k < i ==> !clashes(#[trigger] pieces(frags@)[k], offset, len as nat),
        decreases frags.len() - i,
    {
        let f = &frags[i];
        assert(pieces(frags@)[i as int] == f@);
        let f_end: u64 = f.offset + f.data.len() as u64;
        if offset == f.offset && (end == f_end || len == 0) {
            assert(clashes(pieces(frags@)[i as int], offset, len as nat));
            return true;
        }
        if offset < f_end && end > f.offset {
            assert(clashes(pieces(frags@)[i as int], offset, len as nat));
            return true;
        }
        i = i + 1;
    }
    false
}

fn store_fragment(frags: &mut Vec<Fragment>, f: Fragment)
    requires
        ordered(pieces(old(frags)@)),
        !any_clash(pieces(old(frags)@), f.offset, f.data@.len()),
    ensures
        pieces(final(frags)@) == stored(pieces(old(frags)@), f@),
{
    let ghost before = pieces(frags@);
    let mut p: usize = 0;
    while p < frags.len() && frags[p].offset < f.offset
        invariant
            p <= frags.len(),
            frags@ == old(frags)@,
            before == pieces(frags@),
            ordered(before),
            p == rank(before.subrange(0, p as int), f.offset),
        decreases frags.len() - p,
    {
        assert(before[p as int] == frags@[p as int]@);
        assert(before.subrange(0, p + 1).drop_last() =~= before.subrange(0, p as int));
        p = p + 1;
    }
    proof {
        if p < frags.len() {
            assert(before[p as int] == frags@[p as int]@);
        }
        lemma_rank_prefix(before, p as int, f.offset);
    }
    if p < frags.len() && frags[p].offset == f.offset {
        frags.set(p, f);
        assert(pieces(frags@) =~= before.update(p as int, f@));
    } else {
        frags.insert(p, f);
        assert(pieces(frags@) =~= before.insert(p as int, f@));
    }
}

proof fn lemma_rank_prefix(frags: Seq<FragmentView>, p: int, offset: u64)
    requires
        ordered(frags),
        0 <= p <= frags.len(),
        p == rank(frags.subrange(0, p), offset),
        p < frags.len() ==> frags[p].offset >= offset,
    ensures
        rank(frags, offset) == p,
    decreases frags.len() - p,
{
    if p < frags.len() {
        let last = frags.len() - 1;
        if p < last {
            assert(frags[p].offset < frags[last].offset);
        }
        assert(frags.drop_last().subrange(0, p) =~= frags.subrange(0, p));
        lemma_rank_prefix(frags.drop_last(), p, offset);
    } else {
        assert(frags.subrange(0, p) =~= frags);
    }
}

fn update_contiguous_offset(frags: &Vec<Fragment>, from: u64) -> (to: u64)
    requires
        ordered(pieces(frags@)),
        forall|i: int| 0 <= i < frags@.len() ==> (#[trigger] pieces(frags@)[i]).end() <= u64::MAX,
    ensures
        is_contiguous_end(pieces(frags@), from as int, to as int),
{
    let ghost ps = pieces(frags@);
    let mut current: u64 = from;
    let mut i: usize = 0;
    while i < frags.len() && frags[i].offset <= current
        invariant
            i <= frags.len(),
            ps == pieces(frags@),
            ordered(ps),
            forall|k: int| 0 <= k < ps.len() ==> (#[trigger] ps[k]).end() <= u64::MAX,
            from <= current,
            forall|b: int| from <= b < current ==> covers(ps, b),
            forall|k: int| 0 <= k < i ==> (#[trigger] ps[k]).end() <= current,
        decreases frags.len() - i,
    {
        let f = &frags[i];
        assert(ps[i as int] == f@);
        let f_end: u64 = f.offset + f.data.len() as u64;
        if f_end > current {
            assert forall|b: int| from <= b < f_end implies covers(ps, b) by {
                if b >= current {
                    assert(ps[i as int].start() <= b && b < ps[i as int].end());
                }
            }
            current = f_end;
        }
        i = i + 1;
    }
    assert(!covers(ps, current as int)) by {
        if covers(ps, current as int) {
            let k = choose|k: int|
                0 <= k < ps.len() && (#[trigger] ps[k]).start() <= current && current
                    < ps[k].end();
            if k >= i {
                assert(ps[i as int] == frags@[i as int]@);
                if k > i {
                    assert(ps[i as int].offset < ps[k].offset);
                }
            }
        }
    }
    current
}

fn clone_fragments(frags: &Vec<Fragment>) -> (r: Vec<Fragment>)
    ensures
        pieces(r@) == pieces(frags@),
{
    let mut r: Vec<Fragment> = Vec::new();
    let mut i: usize = 0;
    while i < frags.len()
        invariant
            i <= frags.len(),
            r@.len() == i,
            forall|k: int| 0 <= k < i ==> (#[trigger] r@[k])@ == frags@[k]@,
        decreases frags.len() - i,
    {
        r.push(Fragment { offset: frags[i].offset, data: clone_bytes(&frags[i].data) });
        i = i + 1;
    }
    assert(pieces(r@) =~= pieces(frags@));
    r
}

fn extend_bytes(out: &mut Vec<u8>, data: &Vec<u8>)
    ensures
        final(out)@ == old(out)@ + data@,
{
    let mut i: usize = 0;
    while i < data.len()
        invariant
            i <= data.len(),
            out@ == old(out)@ + data@.subrange(0, i as int),
        decreases data.len() - i,
    {
        out.push(data[i]);
        i = i + 1;
        assert(out@ =~= old(out)@ + data@.subrange(0, i as int));
    }
    assert(data@.subrange(0, i as int) =~= data@);
}

/// Puts fragments of a stream of handshake bytes, which may come in any order, back
/// together from the start of the stream.
#[derive(Debug)]
pub struct CryptoFrameReassembler {
    buffer: FragmentBuffer,
    contiguous_offset: u64,
    has_complete_tls_info: bool,
    cached_tls_info: Option<TlsInfo>,
    max_buffer_size: usize,
    last_update: u64,
}

/// The stored fragments and the number of bytes that they hold together.
#[derive(Debug)]
struct FragmentBuffer {
    fragments: Vec<Fragment>,
    size: usize,
}

/// A reassembler as a value.
pub struct ReassemblerView {
    /// The stored fragments, in the order of their offsets.
    pub fragments: Seq<FragmentView>,
    /// The place in the stream up to which the bytes were seen without a gap.
    pub offset: u64,
    /// The number of bytes that the stored fragments hold.
    pub buffered: nat,
    pub capacity: nat,
    /// The time of the last fragment that was looked at, in milliseconds.
    pub updated_at: u64,
    /// The TLS information that was kept, once the handshake was read in full.
    pub tls_info: Option<TlsInfoView>,
}

impl ReassemblerView {
    /// What holds of every reassembler: the fragments stand in order without sharing a
    /// byte, and hold `buffered` bytes together, no more than the capacity.
    pub open spec fn valid(self) -> bool {
        &&& ordered(self.fragments)
        &&& forall|i: int|
            0 <= i < self.fragments.len() ==> (#[trigger] self.fragments[i]).end() <= u64::MAX
        &&& total_len(self.fragments) == self.buffered
        &&& self.buffered <= self.capacity
        &&& self.capacity == MAX_BUFFER_SIZE
    }

    /// Whether the stored fragments hold the whole stream up to `offset`.
    pub open spec fn holds_prefix(self) -> bool {
        is_contiguous_end(self.fragments, 0, self.offset as int)
    }

    /// The bytes that `get_contiguous_data` hands out.
    pub open spec fn contiguous_bytes(self) -> Seq<u8> {
        chain_bytes(self.fragments, 0, self.offset as int)
    }

    /// Whether a fragment of `len` bytes is refused for want of room.
    pub open spec fn lacks_room(self, len: nat) -> bool {
        self.buffered + len > self.capacity
    }

    /// The reassembler after `add_fragment` has looked at `data` for the place `offset`
    /// at the time `now`.
    ///
    /// A fragment for which there is no room changes nothing. One that clashes with a
    /// stored fragment only sets the time of the last update. Any other is stored, and
    /// the offset moves on to the first place behind it that no fragment holds.
    pub open spec fn with_fragment(self, offset: u64, data: Seq<u8>, now: u64) -> Self {
        if self.lacks_room(data.len()) {
            self
        } else if any_clash(self.fragments, offset, data.len()) {
            ReassemblerView { updated_at: now, ..self }
        } else {
            let fragments = stored(self.fragments, FragmentView { offset, data });
            ReassemblerView {
                fragments,
                offset: next_gap(fragments, self.offset as int) as u64,
                buffered: self.buffered + data.len(),
                updated_at: now,
                ..self
            }
        }
    }
}

impl View for CryptoFrameReassembler {
    type V = ReassemblerView;

    closed spec fn view(&self) -> ReassemblerView {
        ReassemblerView {
            fragments: pieces(self.buffer.fragments@),
            offset: self.contiguous_offset,
            buffered: self.buffer.size as nat,
            capacity: self.max_buffer_size as nat,
            updated_at: self.last_update,
            tls_info: if self.has_complete_tls_info {
                opt_tls_view(self.cached_tls_info)
            } else {
                None
            },
        }
    }
}

impl Clone for CryptoFrameReassembler {
    fn clone(&self) -> (r: Self)
        ensures
            r@ == self@,
    {
        proof {
            use_type_invariant(self);
        }
        Self {
            buffer: FragmentBuffer {
                fragments: clone_fragments(&self.buffer.fragments),
                size: self.buffer.size,
            },
            contiguous_offset: self.contiguous_offset,
            has_complete_tls_info: self.has_complete_tls_info,
            cached_tls_info: clone_opt_tls(&self.cached_tls_info),
            max_buffer_size: self.max_buffer_size,
            last_update: self.last_update,
        }
    }
}

impl CryptoFrameReassembler {
    #[verifier::type_invariant]
    spec fn inv(&self) -> bool {
        &&& ordered(pieces(self.buffer.fragments@))
        &&& forall|i: int|
            0 <= i < self.buffer.fragments@.len() ==> (#[trigger] pieces(
                self.buffer.fragments@,
            )[i]).end() <= u64::MAX
        &&& total_len(pieces(self.buffer.fragments@)) == self.buffer.size
        &&& self.buffer.size <= self.max_buffer_size
        &&& self.max_buffer_size == MAX_BUFFER_SIZE
    }

    /// An empty reassembler, made at the time `now`.
    pub fn new(now: u64) -> (r: Self)
        ensures
            r@ == (ReassemblerView {
                fragments: Seq::empty(),
                offset: 0,
                buffered: 0,
                capacity: MAX_BUFFER_SIZE as nat,
                updated_at: now,
                tls_info: None,
            }),
            r@.holds_prefix(),
            r@.valid(),
    {
        let r = Self {
            buffer: FragmentBuffer { fragments: Vec::new(), size: 0 },
            contiguous_offset: 0,
            has_complete_tls_info: false,
            cached_tls_info: None,
            max_buffer_size: MAX_BUFFER_SIZE,
            last_update: now,
        };
        assert(r@.fragments =~= Seq::empty());
        r
    }

    /// Takes in the bytes `data` that stand at `offset` in the stream.
    ///
    /// A fragment that would bring the buffer over its capacity is refused and nothing
    /// changes. A fragment that clashes with a stored one is dropped: what was stored
    /// first stays. Any other fragment is stored, and the offset moves on over the bytes
    /// that now follow it without a gap.
    #[verifier::rlimit(50)]
    pub fn add_fragment(&mut self, offset: u64, data: Vec<u8>, now: u64) -> (r: Result<
        (),
        &'static str,
    >)
        requires
            offset + data@.len() <= u64::MAX,
        ensures
            final(self)@ == old(self)@.with_fragment(offset, data@, now),
            r == if old(self)@.lacks_room(data@.len()) {
                Err::<(), &'static str>(BUFFER_LIMIT)
            } else {
                Ok::<(), &'static str>(())
            },
            final(self)@.offset >= old(self)@.offset,
            old(self)@.valid(),
            final(self)@.valid(),
            old(self)@.holds_prefix() ==> final(self)@.holds_prefix(),
    {
        proof {
            use_type_invariant(&*self);
        }
        if data.len() > self.max_buffer_size - self.buffer.size {
            return Err(BUFFER_LIMIT);
        }
        self.last_update = now;
        if find_clash(&self.buffer.fragments, offset, data.len()) {
            return Ok(());
        }
        let ghost before = pieces(self.buffer.fragments@);
        let ghost f = FragmentView { offset, data: data@ };
        proof {
            lemma_stored(before, f);
        }
        let mut buffer = FragmentBuffer { fragments: Vec::new(), size: 0 };
        assert(pieces(buffer.fragments@) =~= Seq::empty());
        std::mem::swap(&mut buffer, &mut self.buffer);
        buffer.size = buffer.size + data.len();
        store_fragment(&mut buffer.fragments, Fragment { offset, data });
        let ghost after = pieces(buffer.fragments@);
        assert forall|i: int| 0 <= i < after.len() implies (#[trigger] after[i]).end()
            <= u64::MAX by {
            let p = rank(before, offset);
            lemma_rank_bounds(before, offset);
            if p < before.len() && before[p].offset == offset {
                if i != p {
                    assert(after[i] == before[i]);
                }
            } else {
                if i < p {
                    assert(after[i] == before[i]);
                } else if i > p {
                    assert(after[i] == before[i - 1]);
                }
            }
        }
        let next = update_contiguous_offset(&buffer.fragments, self.contiguous_offset);
        proof {
            lemma_next_gap(after, self.contiguous_offset as int, next as int);
            if old(self)@.holds_prefix() {
                assert forall|b: int| 0 <= b < next implies covers(after, b) by {
                    if b < self.contiguous_offset {
                        assert(covers(before, b));
                    }
                }
            }
        }
        self.buffer = buffer;
        self.contiguous_offset = next;
        Ok(())
    }

    /// The bytes from the start of the stream that follow one another without a gap, or
    /// `None` where there are none.
    pub fn get_contiguous_data(&self) -> (r: Option<Vec<u8>>)
        ensures
            match r {
                Some(v) => v@ == self@.contiguous_bytes() && v@.len() > 0,
                None => self@.contiguous_bytes().len() == 0,
            },
    {
        proof {
            use_type_invariant(self);
        }
        if self.contiguous_offset == 0 {
            return None;
        }
        let ghost ps = pieces(self.buffer.fragments@);
        let mut result: Vec<u8> = Vec::new();
        let mut current: u64 = 0;
        let mut i: usize = 0;
        assert(ps.subrange(0, ps.len() as int) =~= ps);
        assert(result@ + chain_bytes(ps, 0, self.contiguous_offset as int) =~= chain_bytes(
            ps,
            0,
            self.contiguous_offset as int,
        ));
        while i < self.buffer.fragments.len() && current < self.contiguous_offset
            invariant
                i <= self.buffer.fragments.len(),
                ps == pieces(self.buffer.fragments@),
                forall|k: int| 0 <= k < ps.len() ==> (#[trigger] ps[k]).end() <= u64::MAX,
                result@ + chain_bytes(
                    ps.subrange(i as int, ps.len() as int),
                    current as int,
                    self.contiguous_offset as int,
                ) == chain_bytes(ps, 0, self.contiguous_offset as int),
            decreases self.buffer.fragments.len() - i,
        {
            let f = &self.buffer.fragments[i];
            let ghost rest = ps.subrange(i as int, ps.len() as int);
            assert(rest[0] == f@);
            assert(ps[i as int] == f@);
            assert(rest.drop_first() =~= ps.subrange(i + 1, ps.len() as int));
            if f.offset == current && f.data.len() > 0 {
                let ghost before = result@;
                extend_bytes(&mut result, &f.data);
                current = f.offset + f.data.len() as u64;
                assert(result@ + chain_bytes(
                    rest.drop_first(),
                    current as int,
                    self.contiguous_offset as int,
                ) =~= before + chain_bytes(
                    rest,
                    f.offset as int,
                    self.contiguous_offset as int,
                ));
            }
            i = i + 1;
        }
        assert(result@ =~= self@.contiguous_bytes());
        if result.len() == 0 {
            None
        } else {
            Some(result)
        }
    }

    /// Whether more than thirty seconds have passed at `now` since the last fragment.
    pub fn is_stale(&self, now: u64) -> (r: bool)
        ensures
            r == (now - self@.updated_at > STALE_AFTER_MS),
    {
        now > self.last_update && now - self.last_update > STALE_AFTER_MS
    }

    /// Drops the stored fragments. The offset and the kept TLS information stay.
    pub fn clear_fragments(&mut self)
        ensures
            final(self)@ == (ReassemblerView {
                fragments: Seq::empty(),
                buffered: 0,
                ..old(self)@
            }),
            final(self)@.valid(),
    {
        proof {
            use_type_invariant(&*self);
        }
        self.buffer = FragmentBuffer { fragments: Vec::new(), size: 0 };
        assert(pieces(self.buffer.fragments@) =~= Seq::empty());
    }

    /// Keeps `tls_info` as the result of the handshake.
    pub fn set_complete_tls_info(&mut self, tls_info: TlsInfo)
        ensures
            final(self)@ == (ReassemblerView { tls_info: Some(tls_info@), ..old(self)@ }),
    {
        proof {
            use_type_invariant(&*self);
        }
        self.has_complete_tls_info = true;
        self.cached_tls_info = Some(tls_info);
    }

    /// The TLS information that was kept, if any.
    pub fn get_cached_tls_info(&self) -> (r: Option<&TlsInfo>)
        ensures
            match r {
                Some(info) => self@.tls_info == Some(info@),
                None => self@.tls_info is None,
            },
    {
        if self.has_complete_tls_info {
            self.cached_tls_info.as_ref()
        } else {
            None
        }
    }

    /// The stored fragments, in the order of their offsets.
    pub fn get_fragments(&self) -> (r: &Vec<Fragment>)
        ensures
            pieces(r@) == self@.fragments,
            self@.valid(),
    {
        proof {
            use_type_invariant(self);
        }
        &self.buffer.fragments
    }

    pub fn contiguous_offset(&self) -> (r: u64)
        ensures
            r == self@.offset,
    {
        self.contiguous_offset
    }

    /// The number of bytes held, which never exceeds the capacity.
    pub fn current_buffer_size(&self) -> (r: usize)
        ensures
            r == self@.buffered,
            r <= MAX_BUFFER_SIZE,
            self@.valid(),
    {
        proof {
            use_type_invariant(self);
        }
        self.buffer.size
    }

    pub fn max_buffer_size(&self) -> (r: usize)
        ensures
            r == self@.capacity,
            r == MAX_BUFFER_SIZE,
    {
        proof {
            use_type_invariant(self);
        }
        self.max_buffer_size
    }

    pub fn last_update(&self) -> (r: u64)
        ensures
            r == self@.updated_at,
    {
        self.last_update
    }

    pub fn has_complete_tls_info(&self) -> (r: bool)
        ensures
            r == self@.tls_info is Some,
    {
        self.has_complete_tls_info && self.cached_tls_info.is_some()
    }
}


/// Where the fragments hold the whole stream from `cur` up to `limit` and none starts
/// before `cur`, the bytes handed out are those of the stream from `cur` up to `limit`:
/// as many, and each the byte of the fragment that holds its place.
#[verifier::rlimit(50)]
pub proof fn lemma_chain_is_stream(frags: Seq<FragmentView>, cur: int, limit: int)
    requires
        ordered(frags),
        is_contiguous_end(frags, cur, limit),
        forall|i: int| 0 <= i < frags.len() ==> (#[trigger] frags[i]).start() >= cur,
    ensures
        chain_bytes(frags, cur, limit).len() == limit - cur,
        forall|b: int|
            cur <= b < limit ==> #[trigger] holds_byte(
                frags,
                b,
                chain_bytes(frags, cur, limit)[b - cur],
            ),
    decreases frags.len(),
{
    if cur < limit {
        assert(covers(frags, cur));
        let w = choose|i: int|
            0 <= i < frags.len() && (#[trigger] frags[i]).start() <= cur && cur < frags[i].end();
        if w != 0 {
            assert(frags[0].offset < frags[w].offset);
            assert(frags[0].start() >= cur);
        }
        let f = frags[0];
        let rest = frags.drop_first();
        if f.end() > limit {
            assert(f.start() <= limit && limit < f.end());
            assert(covers(frags, limit));
        }
        assert forall|b: int| f.end() <= b < limit implies covers(rest, b) by {
            assert(covers(frags, b));
            let i = choose|i: int|
                0 <= i < frags.len() && (#[trigger] frags[i]).start() <= b && b < frags[i].end();
            assert(rest[i - 1] == frags[i]);
        }
        assert(!covers(rest, limit)) by {
            if covers(rest, limit) {
                let k = choose|k: int|
                    0 <= k < rest.len() && (#[trigger] rest[k]).start() <= limit && limit
                        < rest[k].end();
                assert(frags[k + 1] == rest[k]);
            }
        }
        assert forall|i: int| 0 <= i < rest.len() implies (#[trigger] rest[i]).start()
            >= f.end() by {
            assert(rest[i] == frags[i + 1]);
            assert(frags[0].end() <= frags[i + 1].start());
        }
        assert forall|i: int, j: int| 0 <= i < j < rest.len() implies (#[trigger] rest[i]).offset
            < (#[trigger] rest[j]).offset && rest[i].end() <= rest[j].start() by {
            assert(rest[i] == frags[i + 1] && rest[j] == frags[j + 1]);
        }
        lemma_chain_is_stream(rest, f.end(), limit);
        let whole = chain_bytes(frags, cur, limit);
        let tail = chain_bytes(rest, f.end(), limit);
        assert(whole == f.data + tail);
        assert forall|b: int| cur <= b < limit implies #[trigger] holds_byte(
            frags,
            b,
            whole[b - cur],
        ) by {
            if b < f.end() {
                assert(frags[0].start() <= b && b < frags[0].end());
            } else {
                assert(holds_byte(rest, b, tail[b - f.end()]));
                let i = choose|i: int|
                    0 <= i < rest.len() && (#[trigger] rest[i]).start() <= b && b < rest[i].end()
                        && rest[i].data[b - rest[i].start()] == tail[b - f.end()];
                assert(frags[i + 1] == rest[i]);
                assert(whole[b - cur] == tail[b - f.end()]);
            }
        }
    }
}

/// A reassembler that holds the whole stream up to its offset hands out exactly the
/// bytes of the stream before the offset.
pub proof fn lemma_contiguous_bytes_are_prefix(r: ReassemblerView)
    requires
        r.valid(),
        r.holds_prefix(),
    ensures
        r.contiguous_bytes().len() == r.offset,
        forall|b: int|
            0 <= b < r.offset ==> #[trigger] holds_byte(r.fragments, b, r.contiguous_bytes()[b]),
{
    lemma_chain_is_stream(r.fragments, 0, r.offset as int);
    assert forall|b: int| 0 <= b < r.offset implies #[trigger] holds_byte(
        r.fragments,
        b,
        r.contiguous_bytes()[b],
    ) by {
        assert(holds_byte(r.fragments, b, chain_bytes(r.fragments, 0, r.offset as int)[b - 0]));
    }
}

/// A fragment that repeats the offset and the length of one that was taken in before is
/// ignored, where the buffer has room for it: only the time of the last update changes.
pub proof fn lemma_duplicate_fragment_is_ignored(
    a: ReassemblerView,
    b: ReassemblerView,
    offset: u64,
    first: Seq<u8>,
    second: Seq<u8>,
    now1: u64,
    now2: u64,
)
    requires
        a.valid(),
        !a.lacks_room(first.len()),
        b == a.with_fragment(offset, first, now1),
        second.len() == first.len(),
        !b.lacks_room(second.len()),
    ensures
        b.with_fragment(offset, second, now2) == (ReassemblerView { updated_at: now2, ..b }),
{
    if any_clash(a.fragments, offset, first.len()) {
        assert(b.fragments == a.fragments);
    } else {
        let f = FragmentView { offset, data: first };
        lemma_rank_bounds(a.fragments, offset);
        let p = rank(a.fragments, offset);
        assert(b.fragments[p] == f);
        assert(clashes(b.fragments[p], offset, second.len()));
    }
}

} // verus!
