//! Many streams through few connections: frames, the reading side of a stream, and the pool of
//! connections.

use crate::text::{
    decimal_text, first_index, is_first_index, join_address, joined_address,
    law_joined_address_splits, lemma_first_index, lemma_no_index, parse_u16, split_first_colon,
    unsigned_value,
};
use crate::wire::{
    be16, be32, buffer_advance, buffer_chunk, buffer_freeze, buffer_new, buffer_put_slice,
    buffer_put_u16, buffer_put_u32, buffer_split_to, buffer_view, bytes_advance, bytes_chunk,
    bytes_from_slice, bytes_remaining, bytes_view, lemma_be16_read, lemma_be32_read, u16_at,
    u32_at,
};
use bytes::{Bytes, BytesMut};
use std::collections::HashMap;
use vstd::prelude::*;
use vstd::slice::*;
use vstd::string::*;
use vstd::utf8::*;

verus! {

broadcast use vstd::std_specs::hash::group_hash_axioms;

/// The command of a frame that carries data.
pub const CMD_DATA: u8 = 0;

/// The command of a frame that opens a stream.
pub const CMD_OPEN: u8 = 1;

/// The command of a frame that closes a stream.
pub const CMD_CLOSE: u8 = 2;

/// How many bytes stand before the payload of a frame.
pub const HEADER_LENGTH: usize = 6;

/// The largest payload of a frame.
pub const PAYLOAD_LIMIT: usize = 65535;

/// Numbers of streams are below this; of larger ones the rest is kept.
pub const STREAM_LIMIT: u32 = 0x4000_0000;

/// The port that a server without one is reached at.
pub const DEFAULT_PORT: u16 = 80;

/// A frame.
#[derive(Debug)]
pub struct MuxFrame {
    pub stream_id: u32,
    pub cmd: u8,
    pub payload: Bytes,
}

/// What a frame is.
#[verifier::ext_equal]
pub struct MuxFrameView {
    pub stream_id: u32,
    pub cmd: u8,
    pub payload: Seq<u8>,
}

impl View for MuxFrame {
    type V = MuxFrameView;

    open spec fn view(&self) -> MuxFrameView {
        MuxFrameView {
            stream_id: self.stream_id,
            cmd: self.cmd,
            payload: bytes_view(self.payload),
        }
    }
}

/// The first four bytes of a frame as a number: two bits of the command, thirty of the stream.
pub open spec fn tag_of(stream_id: u32, cmd: u8) -> u32 {
    (stream_id % STREAM_LIMIT + (cmd % 4) * STREAM_LIMIT) as u32
}

/// The bytes of a frame: command and stream, length, payload.
pub open spec fn mux_bytes(f: MuxFrameView) -> Seq<u8> {
    be32(tag_of(f.stream_id, f.cmd)) + be16(f.payload.len() as u16) + f.payload
}

/// What the bytes so far say.
pub enum MuxReadView {
    /// More bytes are needed; the header is not yet there.
    NeedHeader,
    /// More bytes are needed; the header is there.
    NeedPayload,
    /// A frame, and what is behind it.
    Frame(MuxFrameView, Seq<u8>),
}

/// What `s` says.
pub open spec fn mux_at_front(s: Seq<u8>) -> MuxReadView {
    if s.len() < HEADER_LENGTH {
        MuxReadView::NeedHeader
    } else if s.len() < HEADER_LENGTH + u16_at(s, 4) {
        MuxReadView::NeedPayload
    } else {
        let end = HEADER_LENGTH + u16_at(s, 4);
        MuxReadView::Frame(
            MuxFrameView {
                stream_id: u32_at(s, 0) % STREAM_LIMIT,
                cmd: (u32_at(s, 0) / STREAM_LIMIT) as u8,
                payload: s.subrange(HEADER_LENGTH as int, end),
            },
            s.skip(end),
        )
    }
}

/// A frame whose parts fit is read back as it was written, and what follows it is left.
pub proof fn law_frame_round_trip(f: MuxFrameView, rest: Seq<u8>)
    requires
        frame_fits(f),
    ensures
        mux_at_front(mux_bytes(f) + rest) == MuxReadView::Frame(f, rest),
{
    let tag = tag_of(f.stream_id, f.cmd);
    let n = f.payload.len() as u16;
    let s = mux_bytes(f) + rest;
    lemma_be32_read(tag);
    lemma_be16_read(n);
    assert(s[0] == be32(tag)[0] && s[1] == be32(tag)[1] && s[2] == be32(tag)[2] && s[3] == be32(
        tag,
    )[3]);
    assert(s[4] == be16(n)[0] && s[5] == be16(n)[1]);
    assert(u32_at(s, 0) == tag);
    assert(u16_at(s, 4) == n);
    assert(tag % STREAM_LIMIT == f.stream_id);
    assert(tag / STREAM_LIMIT == f.cmd);
    assert(s.subrange(6, 6 + n as int) =~= f.payload);
    assert(s.skip(6 + n as int) =~= rest);
}

/// Of a frame that is not yet whole, nothing is taken: more bytes are needed for every proper
/// beginning of a frame.
pub proof fn law_frame_waits(f: MuxFrameView, cut: int)
    requires
        f.payload.len() <= PAYLOAD_LIMIT,
        0 <= cut < mux_bytes(f).len(),
    ensures
        mux_at_front(mux_bytes(f).take(cut)) !is Frame,
{
    let s = mux_bytes(f).take(cut);
    if cut >= 6 {
        let n = f.payload.len() as u16;
        lemma_be16_read(n);
        assert(s[4] == be16(n)[0] && s[5] == be16(n)[1]);
    }
}

/// A frame that is there is read the same when more bytes have come.
pub proof fn law_frame_needs_no_more(s: Seq<u8>, t: Seq<u8>)
    requires
        mux_at_front(s) is Frame,
    ensures
        mux_at_front(s + t) == MuxReadView::Frame(
            mux_at_front(s)->Frame_0,
            mux_at_front(s)->Frame_1 + t,
        ),
{
    let end = HEADER_LENGTH + u16_at(s, 4);
    assert((s + t).subrange(HEADER_LENGTH as int, end) =~= s.subrange(HEADER_LENGTH as int, end));
    assert((s + t).skip(end) =~= s.skip(end) + t);
}

/// Whether a frame can be written and read back.
pub open spec fn frame_fits(f: MuxFrameView) -> bool {
    f.stream_id < STREAM_LIMIT && f.cmd < 4 && f.payload.len() <= PAYLOAD_LIMIT
}

/// The bytes of frames, one behind the other.
pub open spec fn mux_stream(frames: Seq<MuxFrameView>) -> Seq<u8>
    decreases frames.len(),
{
    if frames.len() == 0 {
        Seq::empty()
    } else {
        mux_bytes(frames[0]) + mux_stream(frames.drop_first())
    }
}

/// The frames that are found one behind the other.
pub open spec fn mux_frames(s: Seq<u8>) -> Seq<MuxFrameView>
    decreases s.len(),
{
    match mux_at_front(s) {
        MuxReadView::Frame(f, rest) => seq![f] + mux_frames(rest),
        _ => Seq::empty(),
    }
}

/// What is left behind the frames that are found one behind the other.
pub open spec fn mux_rest(s: Seq<u8>) -> Seq<u8>
    decreases s.len(),
{
    match mux_at_front(s) {
        MuxReadView::Frame(_, rest) => mux_rest(rest),
        _ => s,
    }
}

/// Frames that are written one behind the other are read back one by one, and nothing is left.
pub proof fn law_frames_read_back(frames: Seq<MuxFrameView>)
    requires
        forall|i: int| 0 <= i < frames.len() ==> frame_fits(#[trigger] frames[i]),
    ensures
        mux_frames(mux_stream(frames)) == frames,
        mux_rest(mux_stream(frames)) == Seq::<u8>::empty(),
    decreases frames.len(),
{
    if frames.len() > 0 {
        let rest = frames.drop_first();
        assert(frame_fits(frames[0]));
        assert forall|i: int| 0 <= i < rest.len() implies frame_fits(#[trigger] rest[i]) by {
            assert(rest[i] == frames[i + 1]);
        }
        law_frames_read_back(rest);
        law_frame_round_trip(frames[0], mux_stream(rest));
        assert(frames =~= seq![frames[0]] + rest);
    } else {
        assert(mux_frames(mux_stream(frames)) =~= frames);
    }
}

/// Pieces, one behind the other.
pub open spec fn joined(pieces: Seq<Seq<u8>>) -> Seq<u8>
    decreases pieces.len(),
{
    if pieces.len() == 0 {
        Seq::empty()
    } else {
        joined(pieces.drop_last()) + pieces.last()
    }
}

/// Pieces one behind the other are the first of them and then the others.
pub proof fn lemma_joined_first(pieces: Seq<Seq<u8>>)
    requires
        pieces.len() > 0,
    ensures
        joined(pieces) == pieces[0] + joined(pieces.drop_first()),
    decreases pieces.len(),
{
    let rest = pieces.drop_first();
    if pieces.len() == 1 {
        assert(joined(pieces.drop_last()) =~= Seq::<u8>::empty());
        assert(joined(rest) =~= Seq::<u8>::empty());
        assert(joined(pieces) =~= pieces[0] + joined(rest));
    } else {
        lemma_joined_first(pieces.drop_last());
        assert(pieces.drop_last().drop_first() =~= rest.drop_last());
        assert(rest.last() == pieces.last());
        assert(joined(pieces) =~= pieces[0] + joined(rest));
    }
}

/// What a connection has brought as frames, and what is left of it, after bytes were read in
/// pieces: behind each piece, all frames that are there are taken.
pub open spec fn read_run(pieces: Seq<Seq<u8>>) -> (Seq<MuxFrameView>, Seq<u8>)
    decreases pieces.len(),
{
    if pieces.len() == 0 {
        (Seq::empty(), Seq::empty())
    } else {
        let (frames, left) = read_run(pieces.drop_last());
        let s = left + pieces.last();
        (frames + mux_frames(s), mux_rest(s))
    }
}

/// When more bytes come, the frames that were taken stay as they are.
pub proof fn lemma_frames_in_two(s: Seq<u8>, t: Seq<u8>)
    ensures
        mux_frames(s + t) == mux_frames(s) + mux_frames(mux_rest(s) + t),
        mux_rest(s + t) == mux_rest(mux_rest(s) + t),
    decreases s.len(),
{
    match mux_at_front(s) {
        MuxReadView::Frame(f, rest) => {
            law_frame_needs_no_more(s, t);
            lemma_frames_in_two(rest, t);
            assert(mux_frames(s + t) =~= mux_frames(s) + mux_frames(mux_rest(s) + t));
        },
        _ => {
            assert(mux_frames(s) =~= Seq::<MuxFrameView>::empty());
            assert(mux_frames(s + t) =~= mux_frames(s) + mux_frames(mux_rest(s) + t));
        },
    }
}

/// It does not matter in which pieces bytes are read: the frames, and what is left behind them,
/// are those of the bytes as a whole.
pub proof fn law_pieces_do_not_matter(pieces: Seq<Seq<u8>>)
    ensures
        read_run(pieces) == (mux_frames(joined(pieces)), mux_rest(joined(pieces))),
    decreases pieces.len(),
{
    if pieces.len() > 0 {
        law_pieces_do_not_matter(pieces.drop_last());
        lemma_frames_in_two(joined(pieces.drop_last()), pieces.last());
    } else {
        assert(mux_frames(Seq::<u8>::empty()) =~= Seq::<MuxFrameView>::empty());
    }
}

/// The bytes of a frame; nothing if its payload is too large to be sent.
pub fn write_mux_frame(frame: &MuxFrame) -> (r: Option<Bytes>)
    ensures
        if frame@.payload.len() > PAYLOAD_LIMIT {
            r is None
        } else {
            r matches Some(b) && bytes_view(b) == mux_bytes(frame@)
        },
{
    let payload: &[u8] = bytes_chunk(&frame.payload);
    let n: usize = payload.len();
    if n > PAYLOAD_LIMIT {
        return None;
    }
    let tag: u32 = frame.stream_id % STREAM_LIMIT + (frame.cmd % 4) as u32 * STREAM_LIMIT;
    let mut out: BytesMut = buffer_new();
    buffer_put_u32(&mut out, tag);
    buffer_put_u16(&mut out, n as u16);
    buffer_put_slice(&mut out, payload);
    assert(buffer_view(out) =~= mux_bytes(frame@));
    Some(buffer_freeze(out))
}

/// What a connection has brought so far.
#[derive(Debug)]
pub enum MuxRead {
    /// More bytes are needed; the header is not yet there.
    NeedHeader,
    /// More bytes are needed; the header is there.
    NeedPayload,
    /// A frame.
    Frame(MuxFrame),
}

/// Takes a frame off the front of what a connection has brought so far. What is not a whole
/// frame stays.
pub fn take_mux_frame(buf: &mut BytesMut) -> (r: MuxRead)
    ensures
        match mux_at_front(buffer_view(*old(buf))) {
            MuxReadView::NeedHeader => r is NeedHeader && buffer_view(*final(buf)) == buffer_view(
                *old(buf),
            ),
            MuxReadView::NeedPayload => r is NeedPayload && buffer_view(*final(buf))
                == buffer_view(*old(buf)),
            MuxReadView::Frame(f, rest) => r matches MuxRead::Frame(g) && g@ == f && buffer_view(
                *final(buf),
            ) == rest,
        },
{
    let ghost s = buffer_view(*buf);
    let have: &[u8] = buffer_chunk(buf);
    if have.len() < HEADER_LENGTH {
        return MuxRead::NeedHeader;
    }
    let tag: u32 = have[0] as u32 * 16777216 + have[1] as u32 * 65536 + have[2] as u32 * 256
        + have[3] as u32;
    let n: usize = have[4] as usize * 256 + have[5] as usize;
    if have.len() < HEADER_LENGTH + n {
        return MuxRead::NeedPayload;
    }
    buffer_advance(buf, HEADER_LENGTH);
    let payload: Bytes = buffer_freeze(buffer_split_to(buf, n));
    let frame = MuxFrame {
        stream_id: tag % STREAM_LIMIT,
        cmd: (tag / STREAM_LIMIT) as u8,
        payload,
    };
    proof {
        assert(bytes_view(payload) =~= s.subrange(6, 6 + n as int));
        assert(buffer_view(*buf) =~= s.skip(6 + n as int));
    }
    MuxRead::Frame(frame)
}

/// Why reading a connection has failed.
#[derive(Debug, Clone, Copy, PartialEq, Eq)]
pub enum MuxError {
    /// It has ended in the middle of a payload.
    Truncated,
}

impl MuxError {
    /// The error in words.
    pub fn message(&self) -> (r: &'static str)
        ensures
            r@ == "Connection truncated while waiting for payload"@,
    {
        "Connection truncated while waiting for payload"
    }
}

/// What frames are.
pub open spec fn frame_views(frames: Seq<MuxFrame>) -> Seq<MuxFrameView> {
    frames.map_values(|f: MuxFrame| f@)
}

/// The reading side of a connection: what it has brought that is not a whole frame yet.
#[derive(Debug)]
pub struct MuxReader {
    buf: BytesMut,
}

impl View for MuxReader {
    type V = Seq<u8>;

    closed spec fn view(&self) -> Seq<u8> {
        buffer_view(self.buf)
    }
}

impl MuxReader {
    /// Whether all whole frames have been taken.
    pub open spec fn wf(&self) -> bool {
        mux_at_front(self@) !is Frame
    }

    /// A connection that has brought nothing yet.
    pub fn new() -> (r: MuxReader)
        ensures
            r.wf(),
            r@ == Seq::<u8>::empty(),
    {
        MuxReader { buf: buffer_new() }
    }

    /// Takes bytes that were read. Gives the frames that are whole with them.
    pub fn receive(&mut self, data: &[u8]) -> (r: Vec<MuxFrame>)
        ensures
            final(self).wf(),
            frame_views(r@) == mux_frames(old(self)@ + data@),
            final(self)@ == mux_rest(old(self)@ + data@),
    {
        let ghost all = self@ + data@;
        buffer_put_slice(&mut self.buf, data);
        let mut out: Vec<MuxFrame> = Vec::new();
        assert(frame_views(out@) + mux_frames(all) =~= mux_frames(all));
        loop
            invariant
                frame_views(out@) + mux_frames(self@) == mux_frames(all),
                mux_rest(self@) == mux_rest(all),
            ensures
                self.wf(),
                frame_views(out@) == mux_frames(all),
                self@ == mux_rest(all),
            decreases self@.len(),
        {
            let ghost before = self@;
            let ghost had = out@;
            match take_mux_frame(&mut self.buf) {
                MuxRead::Frame(frame) => {
                    out.push(frame);
                    assert(frame_views(out@) =~= frame_views(had) + seq![frame@]);
                    assert(mux_frames(before) =~= seq![frame@] + mux_frames(self@));
                    assert(frame_views(out@) + mux_frames(self@) =~= frame_views(had)
                        + mux_frames(before));
                },
                _ => {
                    assert(mux_frames(self@) =~= Seq::<MuxFrameView>::empty());
                    assert(frame_views(out@) + mux_frames(self@) =~= frame_views(out@));
                    break ;
                },
            }
        }
        out
    }

    /// What it means that the connection has ended: it may end between two frames and in a
    /// header, but not in a payload.
    pub fn finish(&self) -> (r: Result<(), MuxError>)
        requires
            self.wf(),
        ensures
            r == match mux_at_front(self@) {
                MuxReadView::NeedPayload => Err::<(), MuxError>(MuxError::Truncated),
                _ => Ok(()),
            },
    {
        if buffer_chunk(&self.buf).len() < HEADER_LENGTH {
            Ok(())
        } else {
            Err(MuxError::Truncated)
        }
    }
}

/// What the stream of a frame is handed: its data, nothing at all to mark the end, or not
/// even that.
pub open spec fn delivery_of(f: MuxFrameView) -> Option<Seq<u8>> {
    if f.cmd == CMD_DATA {
        Some(f.payload)
    } else if f.cmd == CMD_CLOSE {
        Some(Seq::empty())
    } else {
        None
    }
}

/// What the stream of a frame is handed.
pub fn delivery(frame: MuxFrame) -> (r: Option<Bytes>)
    ensures
        match delivery_of(frame@) {
            Some(b) => r matches Some(c) && bytes_view(c) == b,
            None => r is None,
        },
{
    if frame.cmd == CMD_DATA {
        Some(frame.payload)
    } else if frame.cmd == CMD_CLOSE {
        Some(buffer_freeze(buffer_new()))
    } else {
        None
    }
}

/// The streams of a connection, by number.
pub struct StreamTable<S> {
    streams: HashMap<u32, S>,
}

impl<S> View for StreamTable<S> {
    type V = Map<u32, S>;

    closed spec fn view(&self) -> Map<u32, S> {
        self.streams@
    }
}

/// Which stream gets something of a frame, and what: the one that the frame names, if it is
/// there and the frame brings something.
pub open spec fn routed<S>(m: Map<u32, S>, f: MuxFrameView) -> Option<(S, Seq<u8>)> {
    match delivery_of(f) {
        Some(data) => if m.contains_key(f.stream_id) {
            Some((m[f.stream_id], data))
        } else {
            None
        },
        None => None,
    }
}

/// Data that is sent through a stream comes out of the stream of that number at the other end
/// and of no other one, and closing a stream reaches the same stream.
pub proof fn law_data_reaches_its_stream<S>(
    m: Map<u32, S>,
    stream_id: u32,
    data: Seq<u8>,
    rest: Seq<u8>,
)
    requires
        stream_id < STREAM_LIMIT,
        data.len() <= PAYLOAD_LIMIT,
        m.contains_key(stream_id),
    ensures
        ({
            let f = MuxFrameView { stream_id, cmd: CMD_DATA, payload: data };
            mux_at_front(mux_bytes(f) + rest) matches MuxReadView::Frame(g, left) && left == rest
                && routed(m, g) == Some((m[stream_id], data))
        }),
        ({
            let f = MuxFrameView { stream_id, cmd: CMD_CLOSE, payload: Seq::empty() };
            mux_at_front(mux_bytes(f) + rest) matches MuxReadView::Frame(g, left) && left == rest
                && routed(m, g) == Some((m[stream_id], Seq::<u8>::empty()))
        }),
{
    law_frame_round_trip(MuxFrameView { stream_id, cmd: CMD_DATA, payload: data }, rest);
    law_frame_round_trip(
        MuxFrameView { stream_id, cmd: CMD_CLOSE, payload: Seq::empty() },
        rest,
    );
}

/// What a stream gets of frames, one after the other.
pub open spec fn deliveries<S>(
    m: Map<u32, S>,
    frames: Seq<MuxFrameView>,
    stream_id: u32,
) -> Seq<Seq<u8>>
    decreases frames.len(),
{
    if frames.len() == 0 {
        Seq::empty()
    } else {
        let before = deliveries(m, frames.drop_last(), stream_id);
        match routed(m, frames.last()) {
            Some((_, data)) => if frames.last().stream_id == stream_id {
                before.push(data)
            } else {
                before
            },
            None => before,
        }
    }
}

/// What frames are meant to bring to a stream: the payload of each data frame that names it, and
/// nothing at all for each closing one.
pub open spec fn meant_for(frames: Seq<MuxFrameView>, stream_id: u32) -> Seq<Seq<u8>>
    decreases frames.len(),
{
    if frames.len() == 0 {
        Seq::empty()
    } else {
        let before = meant_for(frames.drop_last(), stream_id);
        let f = frames.last();
        if f.stream_id != stream_id {
            before
        } else if f.cmd == CMD_DATA {
            before.push(f.payload)
        } else if f.cmd == CMD_CLOSE {
            before.push(Seq::empty())
        } else {
            before
        }
    }
}

/// A stream that is there gets what the frames are meant to bring to it; one that is not there
/// gets nothing.
pub proof fn lemma_deliveries<S>(m: Map<u32, S>, frames: Seq<MuxFrameView>, stream_id: u32)
    ensures
        deliveries(m, frames, stream_id) == if m.contains_key(stream_id) {
            meant_for(frames, stream_id)
        } else {
            Seq::empty()
        },
    decreases frames.len(),
{
    if frames.len() > 0 {
        lemma_deliveries(m, frames.drop_last(), stream_id);
    }
}

/// What is written to a connection reaches the streams at its other end, in whatever pieces it
/// is read: the frames are read as they were written and the connection has ended between two
/// frames; each stream that is there gets, in order, the data of the data frames that name it
/// and an end for each closing one; a stream that is not there gets nothing.
pub proof fn law_connection_delivers<S>(
    m: Map<u32, S>,
    frames: Seq<MuxFrameView>,
    pieces: Seq<Seq<u8>>,
    stream_id: u32,
)
    requires
        forall|i: int| 0 <= i < frames.len() ==> frame_fits(#[trigger] frames[i]),
        joined(pieces) == mux_stream(frames),
    ensures
        read_run(pieces).0 == frames,
        mux_at_front(read_run(pieces).1) is NeedHeader,
        deliveries(m, read_run(pieces).0, stream_id) == if m.contains_key(stream_id) {
            meant_for(frames, stream_id)
        } else {
            Seq::empty()
        },
{
    law_pieces_do_not_matter(pieces);
    law_frames_read_back(frames);
    lemma_deliveries(m, frames, stream_id);
}

/// Whether all streams have numbers that were given out before `next`.
pub open spec fn numbered_below<S>(m: Map<u32, S>, next: u32) -> bool {
    forall|id: u32| #[trigger] m.contains_key(id) ==> id < next
}

/// Removing a stream undoes adding it: as long as the numbers have not run out, the number of a
/// new stream is that of no other one. Adding and removing streams keep it so.
pub proof fn law_close_undoes_open<S>(m: Map<u32, S>, next: u32, stream: S, other: u32)
    requires
        numbered_below(m, next),
        next < u32::MAX,
    ensures
        !m.contains_key(next),
        m.insert(next, stream).remove(next) == m,
        numbered_below(m.insert(next, stream), next.wrapping_add(1)),
        numbered_below(m.remove(other), next),
{
    assert(m.insert(next, stream).remove(next) =~= m);
}

impl<S> StreamTable<S> {
    /// No streams.
    pub fn new() -> (r: StreamTable<S>)
        ensures
            r@ == Map::<u32, S>::empty(),
    {
        StreamTable { streams: HashMap::new() }
    }

    /// Adds a stream.
    pub fn open(&mut self, stream_id: u32, stream: S)
        ensures
            final(self)@ == old(self)@.insert(stream_id, stream),
    {
        self.streams.insert(stream_id, stream);
    }

    /// Removes a stream.
    pub fn close(&mut self, stream_id: u32)
        ensures
            final(self)@ == old(self)@.remove(stream_id),
    {
        self.streams.remove(&stream_id);
    }

    /// Which stream gets something of a frame, and what.
    pub fn route(&self, frame: MuxFrame) -> (r: Option<(&S, Bytes)>)
        ensures
            match routed(self@, frame@) {
                Some(p) => r matches Some(q) && *q.0 == p.0 && bytes_view(q.1) == p.1,
                None => r is None,
            },
    {
        let stream_id: u32 = frame.stream_id;
        match delivery(frame) {
            Some(data) => match self.streams.get(&stream_id) {
                Some(stream) => Some((stream, data)),
                None => None,
            },
            None => None,
        }
    }
}

/// The frame that carries data of a stream.
pub fn data_frame(stream_id: u32, data: &[u8]) -> (r: MuxFrame)
    ensures
        r@ == (MuxFrameView { stream_id, cmd: CMD_DATA, payload: data@ }),
{
    MuxFrame { stream_id, cmd: CMD_DATA, payload: bytes_from_slice(data) }
}

/// The frame that opens a stream to a destination.
pub fn open_frame(stream_id: u32, host: &str, port: u16) -> (r: MuxFrame)
    ensures
        r@ == (MuxFrameView {
            stream_id,
            cmd: CMD_OPEN,
            payload: encode_utf8(joined_address(host@, port)),
        }),
{
    let target: String = join_address(host, port);
    MuxFrame {
        stream_id,
        cmd: CMD_OPEN,
        payload: bytes_from_slice(target.as_str().as_bytes()),
    }
}

/// The frame that closes a stream.
pub fn close_frame(stream_id: u32) -> (r: MuxFrame)
    ensures
        r@ == (MuxFrameView { stream_id, cmd: CMD_CLOSE, payload: Seq::empty() }),
{
    MuxFrame { stream_id, cmd: CMD_CLOSE, payload: buffer_freeze(buffer_new()) }
}

/// At most `room` bytes of the front.
pub open spec fn front_bytes(s: Seq<u8>, room: nat) -> Seq<u8> {
    if s.len() < room {
        s
    } else {
        s.take(room as int)
    }
}

/// What is left behind at most `room` bytes of the front.
pub open spec fn behind_front(s: Seq<u8>, room: nat) -> Seq<u8> {
    s.skip(front_bytes(s, room).len() as int)
}

/// What a stream can be read from without waiting: what is held of the last data, or else the
/// data that comes next, if some does.
pub open spec fn at_hand(held: Seq<u8>, next: Option<Seq<u8>>) -> Seq<u8> {
    if held.len() > 0 {
        held
    } else {
        match next {
            Some(data) => data,
            None => Seq::empty(),
        }
    }
}

/// The reading side of a stream: what is left of the last data that came.
#[derive(Debug)]
pub struct ReadSide {
    chunk: Option<Bytes>,
}

impl View for ReadSide {
    type V = Seq<u8>;

    /// What can be read without waiting.
    closed spec fn view(&self) -> Seq<u8> {
        match self.chunk {
            Some(b) => bytes_view(b),
            None => Seq::empty(),
        }
    }
}

impl ReadSide {
    /// A stream that nothing came for yet.
    pub fn new() -> (r: ReadSide)
        ensures
            r@ == Seq::<u8>::empty(),
    {
        ReadSide { chunk: None }
    }

    /// Whether data can be read without waiting.
    pub fn has_data(&self) -> (r: bool)
        ensures
            r == (self@.len() > 0),
    {
        match &self.chunk {
            Some(b) => bytes_remaining(b) > 0,
            None => false,
        }
    }

    /// Reads at most `room` bytes. `next` is the data that came, which is taken from the
    /// channel only where nothing is held; it is nothing where the channel has ended. No bytes
    /// mark the end of the stream, and so does empty data.
    pub fn read(&mut self, next: Option<Bytes>, room: usize) -> (r: Vec<u8>)
        requires
            old(self)@.len() > 0 ==> next is None,
        ensures
            ({
                let s = at_hand(
                    old(self)@,
                    match next {
                        Some(b) => Some(bytes_view(b)),
                        None => None,
                    },
                );
                r@ == front_bytes(s, room as nat) && final(self)@ == behind_front(s, room as nat)
            }),
    {
        let held = self.has_data();
        let chunk: Option<Bytes> = if held {
            self.chunk.take()
        } else {
            next
        };
        self.chunk = None;
        match chunk {
            Some(mut b) => {
                let ghost s = bytes_view(b);
                let have: &[u8] = bytes_chunk(&b);
                let n: usize = if have.len() < room {
                    have.len()
                } else {
                    room
                };
                let out: Vec<u8> = slice_to_vec(slice_subrange(have, 0, n));
                assert(out@ =~= front_bytes(s, room as nat));
                bytes_advance(&mut b, n);
                if bytes_remaining(&b) > 0 {
                    self.chunk = Some(b);
                }
                assert(self@ =~= behind_front(s, room as nat));
                out
            },
            None => {
                let out: Vec<u8> = Vec::new();
                assert(out@ =~= front_bytes(Seq::empty(), room as nat));
                assert(self@ =~= behind_front(Seq::empty(), room as nat));
                out
            },
        }
    }
}

/// A stream that is being read: what is held of the last data, and the data in the channel.
#[verifier::ext_equal]
pub struct ReadView {
    pub held: Seq<u8>,
    pub channel: Seq<Seq<u8>>,
}

/// What one read gives, and the stream behind it. The channel is looked at only where nothing
/// is held.
pub open spec fn read_once(v: ReadView, room: nat) -> (Seq<u8>, ReadView) {
    let takes = v.held.len() == 0 && v.channel.len() > 0;
    let next = if takes {
        Some(v.channel[0])
    } else {
        None
    };
    let s = at_hand(v.held, next);
    let channel = if takes {
        v.channel.drop_first()
    } else {
        v.channel
    };
    (front_bytes(s, room), ReadView { held: behind_front(s, room), channel })
}

/// What reads give one after the other, and the stream behind them.
pub open spec fn read_all(v: ReadView, rooms: Seq<nat>) -> (Seq<u8>, ReadView)
    decreases rooms.len(),
{
    if rooms.len() == 0 {
        (Seq::empty(), v)
    } else {
        let (out, w) = read_all(v, rooms.drop_last());
        let (more, x) = read_once(w, rooms.last());
        (out + more, x)
    }
}

/// What is still to be read.
pub open spec fn unread(v: ReadView) -> Seq<u8> {
    v.held + joined(v.channel)
}

/// Whether no data in the channel is empty: the stream has not been closed.
pub open spec fn all_filled(channel: Seq<Seq<u8>>) -> bool {
    forall|i: int| 0 <= i < channel.len() ==> (#[trigger] channel[i]).len() > 0
}

/// One read gives at most as many bytes as there is room for, all from the data that is held
/// or else from the first data in the channel. Nothing is lost: what it gives and what is still
/// to be read behind it are what was to be read before. With room it gives nothing only where
/// nothing is held and the channel is drained or marks the end.
pub proof fn law_read_loses_nothing(v: ReadView, room: nat)
    ensures
        ({
            let (out, w) = read_once(v, room);
            let source = if v.held.len() > 0 || v.channel.len() == 0 {
                v.held
            } else {
                v.channel[0]
            };
            &&& out.len() <= room
            &&& out == source.take(out.len() as int)
            &&& out + unread(w) == unread(v)
            &&& room > 0 && out.len() == 0 ==> v.held.len() == 0 && (v.channel.len() == 0
                || v.channel[0].len() == 0)
            &&& all_filled(v.channel) ==> all_filled(w.channel)
        }),
{
    let (out, w) = read_once(v, room);
    let s = if v.held.len() > 0 || v.channel.len() == 0 {
        v.held
    } else {
        v.channel[0]
    };
    if v.held.len() == 0 && v.channel.len() > 0 {
        lemma_joined_first(v.channel);
        assert forall|i: int| all_filled(v.channel) && 0 <= i < w.channel.len() implies (
        #[trigger] w.channel[i]).len() > 0 by {
            assert(w.channel[i] == v.channel[i + 1]);
        }
    }
    assert(out =~= s.take(out.len() as int));
    assert(out + w.held =~= s);
    assert(out + unread(w) =~= unread(v));
}

/// Over any reads, what is read is what came, in order: nothing is lost, doubled or moved. And
/// all of it is read with enough reads, each with room for something.
pub proof fn law_reads_give_what_came(v: ReadView, rooms: Seq<nat>)
    ensures
        read_all(v, rooms).0 + unread(read_all(v, rooms).1) == unread(v),
        ({
            &&& all_filled(v.channel)
            &&& forall|i: int| 0 <= i < rooms.len() ==> #[trigger] rooms[i] > 0
        }) ==> {
            &&& read_all(v, rooms).0.len() >= rooms.len() || read_all(v, rooms).0 == unread(v)
            &&& all_filled(read_all(v, rooms).1.channel)
            &&& rooms.len() >= unread(v).len() ==> read_all(v, rooms).0 == unread(v)
        },
    decreases rooms.len(),
{
    if rooms.len() == 0 {
        assert(read_all(v, rooms).0 + unread(v) =~= unread(v));
        if unread(v).len() == 0 {
            assert(read_all(v, rooms).0 =~= unread(v));
        }
    } else {
        let front = rooms.drop_last();
        law_reads_give_what_came(v, front);
        let (out, w) = read_all(v, front);
        let (more, x) = read_once(w, rooms.last());
        law_read_loses_nothing(w, rooms.last());
        assert(out + more + unread(x) =~= out + (more + unread(x)));
        let filled = all_filled(v.channel) && forall|i: int|
            0 <= i < rooms.len() ==> #[trigger] rooms[i] > 0;
        if filled {
            assert forall|i: int| 0 <= i < front.len() implies #[trigger] front[i] > 0 by {
                assert(front[i] == rooms[i]);
            }
            assert(rooms.last() == rooms[rooms.len() - 1]);
            if more.len() == 0 {
                assert(joined(w.channel) =~= Seq::<u8>::empty());
                assert(unread(w) =~= Seq::<u8>::empty());
                assert(out =~= unread(v));
            }
            if out == unread(v) {
                assert(unread(w).len() == 0);
                assert(more.len() == 0);
                assert(out + more =~= out);
            }
            if (out + more).len() >= unread(v).len() {
                assert(unread(x).len() == 0);
                assert(out + more =~= unread(v));
            }
        }
    }
}

/// The host of a server: what stands before the first colon.
pub open spec fn server_host(address: Seq<char>) -> Seq<char> {
    match first_index(address, ':') {
        Some(i) => address.take(i),
        None => address,
    }
}

/// The port of a server: the number behind the first colon, or else the default.
pub open spec fn server_port(address: Seq<char>) -> u16 {
    match first_index(address, ':') {
        Some(i) => match unsigned_value(address.skip(i + 1), u16::MAX as nat) {
            Some(n) => n as u16,
            None => DEFAULT_PORT,
        },
        None => DEFAULT_PORT,
    }
}

/// The host and the port of a server.
pub fn server_endpoint(address: &str) -> (r: (String, u16))
    ensures
        r.0@ == server_host(address@),
        r.1 == server_port(address@),
{
    match split_first_colon(address) {
        Some((host, port)) => match parse_u16(port.as_str()) {
            Some(n) => (host, n),
            None => (host, DEFAULT_PORT),
        },
        None => (address.to_string(), DEFAULT_PORT),
    }
}

/// A connection of a pool.
#[derive(Debug)]
pub struct MuxConnection<C> {
    pub link: C,
    /// Which of all connections of the pool this is.
    pub serial: u64,
    pub next_stream_id: u32,
    /// How many of its streams are in use.
    pub stream_count: u32,
}

/// What is to be done for a new stream.
#[derive(Debug, Clone, Copy, PartialEq, Eq)]
pub enum LeaseAction {
    /// Use the connection at that position, under that number.
    Lease(usize, u32),
    /// Make a further connection first.
    ConnectNew,
    /// No stream can be had.
    Error(PoolError),
}

/// Why no stream can be had.
#[derive(Debug, Clone, Copy, PartialEq, Eq)]
pub enum PoolError {
    /// All connections have as many streams as they may, and there may be no further one.
    Full,
}

impl PoolError {
    /// The error in words.
    pub fn message(&self) -> (r: &'static str)
        ensures
            r@ == "Connection pool capacity exceeded"@,
    {
        "Connection pool capacity exceeded"
    }
}

/// A pool of connections to one server.
#[derive(Debug)]
pub struct MuxPool<C> {
    pub server_addr: String,
    pub use_tls: bool,
    pub sni: Option<String>,
    pub min_connections: usize,
    pub max_connections: usize,
    pub max_streams_per_connection: u32,
    pub outbound_proxy: Option<String>,
    pub bind_address: Option<String>,
    pub connections: Vec<MuxConnection<C>>,
    /// The serial number of the next connection.
    pub next_serial: u64,
}

/// Whether a connection takes another stream.
pub open spec fn has_room<C>(c: MuxConnection<C>, max_streams: u32) -> bool {
    c.stream_count < max_streams
}

/// The connections that are alive.
pub open spec fn alive_only<C>(cs: Seq<MuxConnection<C>>, alive: Seq<bool>) -> Seq<
    MuxConnection<C>,
>
    decreases cs.len(),
{
    if cs.len() == 0 {
        Seq::empty()
    } else {
        let front = alive_only(cs.drop_last(), alive);
        if alive[cs.len() - 1] {
            front.push(cs.last())
        } else {
            front
        }
    }
}

/// A connection with a further stream.
pub open spec fn leased<C>(c: MuxConnection<C>) -> MuxConnection<C> {
    MuxConnection {
        next_stream_id: c.next_stream_id.wrapping_add(1),
        stream_count: (c.stream_count + 1) as u32,
        ..c
    }
}

/// A connection with a stream less.
pub open spec fn released<C>(c: MuxConnection<C>) -> MuxConnection<C> {
    MuxConnection { stream_count: c.stream_count.wrapping_sub(1), ..c }
}

/// Whether position `i` is that of the first connection that takes another stream.
pub open spec fn is_first_with_room<C>(
    cs: Seq<MuxConnection<C>>,
    max_streams: u32,
    i: int,
) -> bool {
    &&& 0 <= i < cs.len()
    &&& has_room(cs[i], max_streams)
    &&& forall|j: int| 0 <= j < i ==> !has_room(#[trigger] cs[j], max_streams)
}

/// Whether no connection takes another stream.
pub open spec fn none_has_room<C>(cs: Seq<MuxConnection<C>>, max_streams: u32) -> bool {
    forall|j: int| 0 <= j < cs.len() ==> !has_room(#[trigger] cs[j], max_streams)
}

/// Whether position `i` is the first one of a connection with a serial number.
pub open spec fn is_first_serial<C>(cs: Seq<MuxConnection<C>>, serial: u64, i: int) -> bool {
    &&& 0 <= i < cs.len()
    &&& cs[i].serial == serial
    &&& forall|j: int| 0 <= j < i ==> (#[trigger] cs[j]).serial != serial
}

/// Whether all connections have serial numbers of their own, given out before `next`.
pub open spec fn serials_differ<C>(cs: Seq<MuxConnection<C>>, next: u64) -> bool {
    &&& forall|i: int| 0 <= i < cs.len() ==> (#[trigger] cs[i]).serial < next
    &&& forall|i: int, j: int|
        0 <= i < j < cs.len() ==> (#[trigger] cs[i]).serial != (#[trigger] cs[j]).serial
}

/// Removing connections leaves the others with their own serial numbers.
pub proof fn lemma_alive_serials<C>(cs: Seq<MuxConnection<C>>, alive: Seq<bool>, next: u64)
    requires
        serials_differ(cs, next),
    ensures
        serials_differ(alive_only(cs, alive), next),
    decreases cs.len(),
{
    if cs.len() > 0 {
        let front = cs.drop_last();
        let kept = alive_only(front, alive);
        lemma_alive_serials(front, alive, next);
        assert forall|k: int| 0 <= k < kept.len() implies (#[trigger] kept[k]).serial
            != cs.last().serial by {
            law_alive_only_removes(front, alive, k);
            let j = choose|j: int|
                0 <= j < front.len() && alive[j] && #[trigger] front[j] == kept[k];
            assert(cs[j].serial != cs[cs.len() - 1].serial);
        }
    }
}

/// Dropping a stream undoes leasing it in the whole pool. Whatever has happened to the pool
/// meanwhile, if the connection of the stream is still there as leasing left it, giving the
/// stream back finds that connection, gives it the number of streams that it had before, and
/// leaves all others alone. If nothing has happened meanwhile, the pool is what it was, but for
/// the number of the next stream, which is not set back.
pub proof fn law_drop_undoes_lease<C>(
    before: Seq<MuxConnection<C>>,
    max_streams: u32,
    i: int,
    later: Seq<MuxConnection<C>>,
    next: u64,
    k: int,
)
    requires
        is_first_with_room(before, max_streams, i),
        serials_differ(later, next),
        0 <= k < later.len(),
        later[k] == leased(before[i]),
    ensures
        is_first_serial(later, before[i].serial, k),
        ({
            let after = later.update(k, released(later[k]));
            &&& after[k].stream_count == before[i].stream_count
            &&& after[k].link == before[i].link
            &&& after[k].serial == before[i].serial
            &&& forall|j: int| 0 <= j < later.len() && j != k ==> #[trigger] after[j] == later[j]
            &&& k == i && later == before.update(i, leased(before[i])) ==> after == before.update(
                i,
                MuxConnection {
                    next_stream_id: before[i].next_stream_id.wrapping_add(1),
                    ..before[i]
                },
            )
        }),
{
    assert forall|j: int| 0 <= j < k implies (#[trigger] later[j]).serial != before[i].serial by {
        assert(later[j].serial != later[k].serial);
    }
    let after = later.update(k, released(later[k]));
    if k == i && later == before.update(i, leased(before[i])) {
        assert(after =~= before.update(
            i,
            MuxConnection {
                next_stream_id: before[i].next_stream_id.wrapping_add(1),
                ..before[i]
            },
        ));
    }
}

/// Whether no connection has more streams than it may.
pub open spec fn within_limit<C>(cs: Seq<MuxConnection<C>>, max_streams: u32) -> bool {
    forall|i: int| 0 <= i < cs.len() ==> (#[trigger] cs[i]).stream_count <= max_streams
}

/// No connection ever has more streams than it may: removing those that are gone, adding one,
/// taking a stream where there is room and giving one back keep it so.
pub proof fn law_pool_stays_within_limit<C>(
    cs: Seq<MuxConnection<C>>,
    alive: Seq<bool>,
    link: C,
    serial: u64,
    i: int,
    max_streams: u32,
)
    requires
        within_limit(cs, max_streams),
    ensures
        within_limit(alive_only(cs, alive), max_streams),
        within_limit(
            cs.push(MuxConnection { link, serial, next_stream_id: 1, stream_count: 0 }),
            max_streams,
        ),
        is_first_with_room(cs, max_streams, i) ==> within_limit(
            cs.update(i, leased(cs[i])),
            max_streams,
        ),
        0 <= i < cs.len() && cs[i].stream_count > 0 ==> within_limit(
            cs.update(i, released(cs[i])),
            max_streams,
        ),
    decreases cs.len(),
{
    if cs.len() > 0 {
        let front = cs.drop_last();
        assert forall|k: int| 0 <= k < front.len() implies (#[trigger] front[k]).stream_count
            <= max_streams by {
            assert(front[k] == cs[k]);
        }
        law_pool_stays_within_limit(front, alive, link, serial, i, max_streams);
        assert(cs.last() == cs[cs.len() - 1]);
    }
}

/// The connections that stay are connections that were there.
pub proof fn law_alive_only_removes<C>(cs: Seq<MuxConnection<C>>, alive: Seq<bool>, k: int)
    requires
        0 <= k < alive_only(cs, alive).len(),
    ensures
        exists|j: int|
            0 <= j < cs.len() && alive[j] && #[trigger] cs[j] == alive_only(cs, alive)[k],
    decreases cs.len(),
{
    let last = cs.len() - 1;
    let front = cs.drop_last();
    if alive[last] && k == alive_only(front, alive).len() {
        assert(cs[last] == alive_only(cs, alive)[k]);
    } else {
        law_alive_only_removes(front, alive, k);
        let j = choose|j: int|
            0 <= j < front.len() && alive[j] && #[trigger] front[j] == alive_only(front, alive)[k];
        assert(cs[j] == alive_only(cs, alive)[k]);
    }
}

impl<C> MuxPool<C> {
    /// Whether the pools differ in nothing but their connections.
    pub open spec fn same_server(&self, other: &MuxPool<C>) -> bool {
        &&& self.server_addr == other.server_addr
        &&& self.use_tls == other.use_tls
        &&& self.sni == other.sni
        &&& self.min_connections == other.min_connections
        &&& self.max_connections == other.max_connections
        &&& self.max_streams_per_connection == other.max_streams_per_connection
        &&& self.outbound_proxy == other.outbound_proxy
        &&& self.bind_address == other.bind_address
    }

    /// Whether all connections have serial numbers of their own.
    pub open spec fn wf(&self) -> bool {
        serials_differ(self.connections@, self.next_serial)
    }

    /// A pool without connections.
    pub fn new(
        server_addr: String,
        use_tls: bool,
        sni: Option<String>,
        min_connections: usize,
        max_connections: usize,
        max_streams_per_connection: u32,
        outbound_proxy: Option<String>,
        bind_address: Option<String>,
    ) -> (r: MuxPool<C>)
        ensures
            r.server_addr == server_addr,
            r.use_tls == use_tls,
            r.sni == sni,
            r.min_connections == min_connections,
            r.max_connections == max_connections,
            r.max_streams_per_connection == max_streams_per_connection,
            r.outbound_proxy == outbound_proxy,
            r.bind_address == bind_address,
            r.connections@ == Seq::<MuxConnection<C>>::empty(),
            r.next_serial == 0,
            r.wf(),
    {
        MuxPool {
            server_addr,
            use_tls,
            sni,
            min_connections,
            max_connections,
            max_streams_per_connection,
            outbound_proxy,
            bind_address,
            connections: Vec::new(),
            next_serial: 0,
        }
    }

    /// The name that the server must have: the one that is configured, or else `localhost`.
    pub fn server_name(&self) -> (r: String)
        ensures
            r@ == match self.sni {
                Some(s) => s@,
                None => "localhost"@,
            },
    {
        match &self.sni {
            Some(s) => s.clone(),
            None => "localhost".to_string(),
        }
    }

    /// Whether there are fewer connections than there should be at least.
    pub fn needs_warming(&self) -> (r: bool)
        ensures
            r == (self.connections@.len() < self.min_connections),
    {
        self.connections.len() < self.min_connections
    }

    /// Adds a connection that was made. Its streams are numbered from one. Its serial number is
    /// its own as long as the serial numbers have not run out.
    pub fn push_connection(&mut self, link: C) -> (r: u64)
        ensures
            old(self).wf() && old(self).next_serial < u64::MAX ==> final(self).wf(),
            final(self).same_server(old(self)),
            r == old(self).next_serial,
            final(self).next_serial == old(self).next_serial.wrapping_add(1),
            final(self).connections@ == old(self).connections@.push(
                MuxConnection {
                    link,
                    serial: old(self).next_serial,
                    next_stream_id: 1,
                    stream_count: 0,
                },
            ),
    {
        let serial: u64 = self.next_serial;
        self.next_serial = serial.wrapping_add(1);
        self.connections.push(
            MuxConnection { link, serial, next_stream_id: 1, stream_count: 0 },
        );
        serial
    }

    /// Removes the connections that are not alive.
    pub fn retain_alive(&mut self, alive: &Vec<bool>)
        requires
            alive@.len() == old(self).connections@.len(),
        ensures
            old(self).wf() ==> final(self).wf(),
            final(self).same_server(old(self)),
            final(self).next_serial == old(self).next_serial,
            final(self).connections@ == alive_only(old(self).connections@, alive@),
    {
        let ghost all = self.connections@;
        let mut taken: Vec<MuxConnection<C>> = Vec::new();
        std::mem::swap(&mut taken, &mut self.connections);
        let mut kept: Vec<MuxConnection<C>> = Vec::new();
        let count: usize = alive.len();
        let mut i: usize = 0;
        assert(all.take(0) =~= Seq::empty());
        for c in it: taken
            invariant
                it.seq() == all,
                i == it.index(),
                count == alive@.len(),
                count == all.len(),
                kept@ == alive_only(all.take(it.index() as int), alive@),
        {
            let ghost n = it.index() as int;
            proof {
                assert(all.take(n + 1).drop_last() =~= all.take(n));
                assert(all.take(n + 1).last() == c);
            }
            assert(i < count);
            if alive[i] {
                kept.push(c);
            }
            i = i + 1;
        }
        assert(all.take(all.len() as int) =~= all);
        self.connections = kept;
        proof {
            if old(self).wf() {
                lemma_alive_serials(all, alive@, old(self).next_serial);
            }
        }
    }

    /// Decides where a new stream goes, and takes note of it: to the first connection that
    /// takes another one, or to a further connection if there may be one.
    pub fn lease(&mut self) -> (r: LeaseAction)
        ensures
            old(self).wf() ==> final(self).wf(),
            final(self).same_server(old(self)),
            final(self).next_serial == old(self).next_serial,
            match r {
                LeaseAction::Lease(i, id) => {
                    let cs = old(self).connections@;
                    &&& is_first_with_room(cs, old(self).max_streams_per_connection, i as int)
                    &&& id == cs[i as int].next_stream_id
                    &&& final(self).connections@ == cs.update(i as int, leased(cs[i as int]))
                },
                LeaseAction::ConnectNew => {
                    &&& none_has_room(
                        old(self).connections@,
                        old(self).max_streams_per_connection,
                    )
                    &&& old(self).connections@.len() < old(self).max_connections
                    &&& final(self).connections@ == old(self).connections@
                },
                LeaseAction::Error(e) => {
                    &&& e == PoolError::Full
                    &&& none_has_room(
                        old(self).connections@,
                        old(self).max_streams_per_connection,
                    )
                    &&& old(self).connections@.len() >= old(self).max_connections
                    &&& final(self).connections@ == old(self).connections@
                },
            },
    {
        let max: u32 = self.max_streams_per_connection;
        let mut i: usize = 0;
        while i < self.connections.len()
            invariant
                i <= self.connections@.len(),
                *self == *old(self),
                max == self.max_streams_per_connection,
                forall|j: int| 0 <= j < i ==> !has_room(#[trigger] self.connections@[j], max),
            decreases self.connections@.len() - i,
        {
            let count: u32 = self.connections[i].stream_count;
            if count < max {
                let id: u32 = self.connections[i].next_stream_id;
                self.connections[i].next_stream_id = id.wrapping_add(1);
                self.connections[i].stream_count = count + 1;
                assert(self.connections@ =~= old(self).connections@.update(
                    i as int,
                    leased(old(self).connections@[i as int]),
                ));
                return LeaseAction::Lease(i, id);
            }
            i = i + 1;
        }
        if self.connections.len() < self.max_connections {
            LeaseAction::ConnectNew
        } else {
            LeaseAction::Error(PoolError::Full)
        }
    }

    /// Takes note that a stream of a connection is no longer in use. Nothing happens if the
    /// connection is gone.
    pub fn release(&mut self, serial: u64)
        ensures
            old(self).wf() ==> final(self).wf(),
            final(self).same_server(old(self)),
            final(self).next_serial == old(self).next_serial,
            forall|i: int| #[trigger]
                is_first_serial(old(self).connections@, serial, i) ==> final(self).connections@
                    == old(self).connections@.update(i, released(old(self).connections@[i])),
            (forall|i: int| !is_first_serial(old(self).connections@, serial, i))
                ==> final(self).connections@ == old(self).connections@,
    {
        let mut i: usize = 0;
        while i < self.connections.len()
            invariant
                i <= self.connections@.len(),
                *self == *old(self),
                forall|j: int| 0 <= j < i ==> (#[trigger] self.connections@[j]).serial != serial,
            decreases self.connections@.len() - i,
        {
            if self.connections[i].serial == serial {
                let count: u32 = self.connections[i].stream_count;
                self.connections[i].stream_count = count.wrapping_sub(1);
                proof {
                    let cs = old(self).connections@;
                    assert(self.connections@ =~= cs.update(i as int, released(cs[i as int])));
                    assert(is_first_serial(cs, serial, i as int));
                    assert forall|k: int| #[trigger] is_first_serial(cs, serial, k) implies k
                        == i by {
                        if k < i {
                            assert(cs[k].serial != serial);
                        }
                        if i < k {
                            assert(cs[i as int].serial != serial);
                        }
                    }
                }
                return;
            }
            i = i + 1;
        }
    }
}

/// A frame lies on the wire as the protocol has it: the command in the two high bits and the
/// stream in the thirty low ones of the first four bytes, then the length of the payload, then
/// the payload.
pub proof fn law_frame_layout(f: MuxFrameView)
    requires
        frame_fits(f),
    ensures
        ({
            let s = mux_bytes(f);
            &&& s.len() == 6 + f.payload.len()
            &&& s[0] / 64 == f.cmd
            &&& s[0] % 64 * 0x100_0000 + s[1] * 0x1_0000 + s[2] * 0x100 + s[3] == f.stream_id
            &&& s[4] * 256 + s[5] == f.payload.len()
            &&& s.skip(6) == f.payload
        }),
{
    let s = mux_bytes(f);
    let tag = tag_of(f.stream_id, f.cmd);
    lemma_be32_read(tag);
    assert(s[0] == be32(tag)[0] && s[1] == be32(tag)[1] && s[2] == be32(tag)[2] && s[3] == be32(
        tag,
    )[3]);
    let n = f.payload.len() as u16;
    assert(s[4] == be16(n)[0] && s[5] == be16(n)[1]);
    assert(s.skip(6) =~= f.payload);
}

/// Data and ends are handed to a stream, everything else is not: a frame that opens a stream,
/// and one of an unknown kind, bring nothing.
pub proof fn law_what_frames_bring(f: MuxFrameView)
    ensures
        f.cmd == 0 ==> delivery_of(f) == Some(f.payload),
        f.cmd == 2 ==> delivery_of(f) == Some(Seq::<u8>::empty()),
        f.cmd != 0 && f.cmd != 2 ==> delivery_of(f) is None,
{
}

/// Of connections, exactly those that are alive stay, in their order: of two groups of them
/// those of the first stay, and behind them those of the second; one that is alive stays, and
/// one that is not does not.
pub proof fn law_alive_connections_stay<C>(
    a: Seq<MuxConnection<C>>,
    b: Seq<MuxConnection<C>>,
    alive_a: Seq<bool>,
    alive_b: Seq<bool>,
    c: MuxConnection<C>,
)
    requires
        alive_a.len() == a.len(),
        alive_b.len() == b.len(),
    ensures
        alive_only(a + b, alive_a + alive_b) == alive_only(a, alive_a) + alive_only(b, alive_b),
        alive_only(seq![c], seq![true]) == seq![c],
        alive_only(seq![c], seq![false]) == Seq::<MuxConnection<C>>::empty(),
    decreases b.len(),
{
    reveal_with_fuel(alive_only, 2);
    assert(alive_only(seq![c], seq![true]) =~= seq![c]);
    assert(alive_only(seq![c], seq![false]) =~= Seq::<MuxConnection<C>>::empty());
    let alive = alive_a + alive_b;
    if b.len() == 0 {
        assert(a + b =~= a);
        assert(alive =~= alive_a);
        assert(alive_only(a, alive_a) + alive_only(b, alive_b) =~= alive_only(a, alive_a));
    } else {
        let front = b.drop_last();
        let n = alive_b.len() - 1;
        let alive_front = alive_b.take(n);
        law_alive_connections_stay(a, front, alive_a, alive_front, c);
        assert((a + b).drop_last() =~= a + front);
        lemma_alive_prefix(a + front, alive, alive_a + alive_front);
        lemma_alive_prefix(front, alive_b, alive_front);
        assert(alive[(a + b).len() - 1] == alive_b[n]);
        assert(alive_only(a + b, alive) =~= alive_only(a, alive_a) + alive_only(b, alive_b));
    }
}

/// Whether further connections are alive does not matter.
proof fn lemma_alive_prefix<C>(cs: Seq<MuxConnection<C>>, x: Seq<bool>, y: Seq<bool>)
    requires
        forall|i: int| 0 <= i < cs.len() ==> x[i] == y[i],
    ensures
        alive_only(cs, x) == alive_only(cs, y),
    decreases cs.len(),
{
    if cs.len() > 0 {
        lemma_alive_prefix(cs.drop_last(), x, y);
    }
}

/// A connection takes another stream exactly if it has fewer than it may; the first such
/// connection gets it, one stream more is counted, and the next stream gets another number.
pub proof fn law_lease_takes_the_first_with_room<C>(
    cs: Seq<MuxConnection<C>>,
    max_streams: u32,
    i: int,
)
    ensures
        is_first_with_room(cs, max_streams, i) <==> 0 <= i < cs.len() && cs[i].stream_count
            < max_streams && forall|j: int|
            0 <= j < i ==> (#[trigger] cs[j]).stream_count >= max_streams,
        none_has_room(cs, max_streams) <==> forall|j: int|
            0 <= j < cs.len() ==> (#[trigger] cs[j]).stream_count >= max_streams,
        is_first_with_room(cs, max_streams, i) ==> {
            let c = leased(cs[i]);
            &&& c.stream_count == cs[i].stream_count + 1
            &&& c.next_stream_id != cs[i].next_stream_id
            &&& c.link == cs[i].link
            &&& c.serial == cs[i].serial
        },
{
}

/// A server is given as a host and a port with a colon between them; without a port, or with
/// something else in its place, it is reached at port 80.
pub proof fn law_server_address(host: Seq<char>, port: u16, other: Seq<char>)
    requires
        forall|j: int| 0 <= j < host.len() ==> host[j] != ':',
    ensures
        server_host(joined_address(host, port)) == host,
        server_port(joined_address(host, port)) == port,
        server_host(host) == host,
        server_port(host) == 80,
        server_host(host.push(':') + other) == host,
        unsigned_value(other, 65535) is None ==> server_port(host.push(':') + other) == 80,
{
    law_joined_address_splits(host, port);
    lemma_no_index(host, ':');
    let s = joined_address(host, port);
    assert(is_first_index(s, ':', host.len() as int));
    lemma_first_index(s, ':', host.len() as int);
    assert(s.take(host.len() as int) =~= host);
    assert(s.skip(host.len() as int + 1) =~= decimal_text(port as nat));
    let t = host.push(':') + other;
    assert(is_first_index(t, ':', host.len() as int));
    lemma_first_index(t, ':', host.len() as int);
    assert(t.take(host.len() as int) =~= host);
    assert(t.skip(host.len() as int + 1) =~= other);
}

/// A frame is its stream, its command and its payload.
pub proof fn law_frame_is_told(f: MuxFrame)
    ensures
        f@.stream_id == f.stream_id && f@.cmd == f.cmd && f@.payload == bytes_view(f.payload),
{
}

/// A pool whose server stays the same keeps all that it was made with.
pub proof fn law_pool_keeps_its_server<C>(a: MuxPool<C>, b: MuxPool<C>)
    ensures
        a.same_server(&b) <==> a.server_addr == b.server_addr && a.use_tls == b.use_tls && a.sni
            == b.sni && a.min_connections == b.min_connections && a.max_connections
            == b.max_connections && a.max_streams_per_connection == b.max_streams_per_connection
            && a.outbound_proxy == b.outbound_proxy && a.bind_address == b.bind_address,
{
}

/// Every payload of up to 65535 bytes fits a frame of a stream with a number of thirty bits.
pub proof fn law_frames_that_fit(f: MuxFrameView)
    ensures
        frame_fits(f) <==> f.stream_id < 0x4000_0000 && f.cmd <= 3 && f.payload.len() <= 65535,
{
}

} // verus!
