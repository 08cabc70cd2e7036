//! The per-connection HTTP/2 layer: the outbound frame FIFO with its
//! resumable writer, and the `Http2` table that applies received frames to
//! streams and queues the answers the protocol owes.

use vstd::prelude::*;

use std::collections::HashMap;

use crate::encoder::{EncodeResult, Encoder, FrameEncoder, Sink};
use crate::frame::{
    ErrorCode, FrameHeader, Kind, StreamIdentifier, ERROR_PROTOCOL, FLAG_ACK, FLAG_END_HEADERS,
};
use crate::parser::{Frame, FrameView, Payload, PayloadView, TypedSlice};
use crate::stream::{spec_transition, Direction, State, Transition};

verus! {

broadcast use vstd::std_specs::hash::group_hash_axioms;

/// An HTTP/2 protocol error, classified as RFC 7540 section 5.4 does:
/// a stream error resets one stream and keeps the connection; a connection
/// error sends GOAWAY and terminates it.
#[derive(Clone, Copy, Debug, PartialEq, Eq, Structural)]
pub enum Error {
    /// An error confined to one stream: answered with RST_STREAM.
    Stream(StreamIdentifier, ErrorCode),
    /// An error of the whole connection: answered with GOAWAY.
    Connection(ErrorCode),
}

/// The wire bytes of a queue of outbound frames, in order.
pub open spec fn queued_bytes<C>(q: Seq<(FrameView, Option<C>)>) -> Seq<u8>
    decreases q.len(),
{
    if q.len() == 0 {
        Seq::<u8>::empty()
    } else {
        q[0].0.wire_bytes() + queued_bytes(q.skip(1))
    }
}

/// How far one call of the outbound writer got.
#[derive(Clone, Copy, Debug, PartialEq, Eq, Structural)]
pub enum WriteProgress {
    /// Everything queued has been written; writable interest can be
    /// dropped.
    Flushed,
    /// The sink would block; the partly written frame is stashed and the
    /// next call resumes it.
    Blocked,
    /// The sink accepted zero bytes: the peer closed.
    Closed,
    /// The sink failed fatally.
    Failed,
}

/// The outbound frame FIFO of one connection, with the partly-written
/// frame's encoder stashed across would-blocks. `C` is the completion tag a
/// caller attaches to a frame; the tag comes back once all the frame's
/// bytes have been accepted by the sink. Dropping the FIFO — as dropping
/// the connection does — drops its frames, and their tags never come back.
pub struct Outgoing<C> {
    queue: Vec<(Frame, Option<C>)>,
    current: Option<(FrameEncoder, Option<C>)>,
}

impl<C> Outgoing<C> {
    /// Everything queued is well-formed, so it can always be encoded.
    pub closed spec fn wf(self) -> bool {
        forall|i: int| 0 <= i < self.queue@.len() ==> (#[trigger] self.queue@[i].0)@.wf()
    }

    /// The queued frames with their completion tags, in write order, the
    /// partly-written one excluded.
    pub closed spec fn queued(&self) -> Seq<(FrameView, Option<C>)> {
        self.queue@.map_values(|fc: (Frame, Option<C>)| (fc.0@, fc.1))
    }

    /// The partly-written frame: its remaining bytes and its tag.
    pub closed spec fn current_view(&self) -> Option<(Seq<u8>, Option<C>)> {
        match self.current {
            Some((ref e, c)) => Some((e.pending(), c)),
            None => None,
        }
    }

    /// Every byte still owed to the sink, in order: the partly-written
    /// frame's remainder, then each queued frame.
    pub open spec fn outbound_bytes(&self) -> Seq<u8> {
        (match self.current_view() {
            Some((p, _)) => p,
            None => Seq::<u8>::empty(),
        }) + queued_bytes(self.queued())
    }

    /// The completion tags still owed, in completion order.
    pub open spec fn tags(&self) -> Seq<Option<C>> {
        (match self.current_view() {
            Some((_, c)) => seq![c],
            None => Seq::<Option<C>>::empty(),
        }) + self.queued().map_values(|fc: (FrameView, Option<C>)| fc.1)
    }

    /// An empty FIFO.
    pub fn new() -> (r: Outgoing<C>)
        ensures
            r.wf(),
            r.queued().len() == 0,
            r.current_view() is None,
    {
        Outgoing { queue: Vec::new(), current: None }
    }

    /// Queue a well-formed frame for writing. The tag, if any, comes back
    /// from the writer once the frame has been fully written to the socket.
    pub fn enqueue(&mut self, frame: Frame, cb: Option<C>)
        requires
            old(self).wf(),
            frame@.wf(),
        ensures
            final(self).wf(),
            final(self).queued() == old(self).queued().push((frame@, cb)),
            final(self).current_view() == old(self).current_view(),
    {
        self.queue.push((frame, cb));
        proof {
            assert(self.queued() =~= old(self).queued().push((frame@, cb)));
        }
    }

    /// Take the next queued frame as a resumable encoder.
    pub fn dequeue(&mut self) -> (r: Option<(FrameEncoder, Option<C>)>)
        requires
            old(self).wf(),
        ensures
            final(self).wf(),
            final(self).current_view() == old(self).current_view(),
            match r {
                None => old(self).queued().len() == 0 && final(self).queued() == old(
                    self,
                ).queued(),
                Some((e, c)) => old(self).queued().len() > 0 && e.pending() == old(
                    self,
                ).queued()[0].0.wire_bytes() && c == old(self).queued()[0].1 && final(self).queued()
                    == old(self).queued().skip(1),
            },
    {
        if self.queue.is_empty() {
            proof {
                assert(final(self).queued() =~= old(self).queued());
            }
            return None;
        }
        let (frame, cb) = self.queue.remove(0);
        proof {
            assert(self.queued() =~= old(self).queued().skip(1));
        }
        Some((FrameEncoder::from(frame), cb))
    }

    /// Whether no whole frame is waiting (a partly-written one may be).
    pub fn is_empty(&self) -> (r: bool)
        ensures
            r == (self.queued().len() == 0),
    {
        self.queue.is_empty()
    }

    /// Whether nothing at all is owed to the sink.
    pub fn is_idle(&self) -> (r: bool)
        ensures
            r == (self.queued().len() == 0 && self.current_view() is None),
    {
        self.queue.is_empty() && self.current.is_none()
    }

    /// Drive the FIFO into the sink until it drains, the sink blocks, or
    /// the sink fails. Bytes reach the sink in enqueue order; the returned
    /// tags are exactly those of the frames whose bytes have all been
    /// accepted, in that same order.
    pub fn write_all<S: Sink>(&mut self, sink: &mut S) -> (r: (Vec<Option<C>>, WriteProgress))
        requires
            old(self).wf(),
        ensures
            final(self).wf(),
            ({
                let ob0 = old(self).outbound_bytes();
                let ob1 = final(self).outbound_bytes();
                let t0 = old(self).tags();
                let t1 = final(self).tags();
                &&& ob1.len() <= ob0.len()
                &&& ob1 == ob0.skip(ob0.len() - ob1.len())
                &&& final(sink).sunk() == old(sink).sunk() + ob0.take(ob0.len() - ob1.len())
                &&& r.0@.len() <= t0.len()
                &&& r.0@ == t0.take(r.0@.len() as int)
                &&& t1 == t0.skip(r.0@.len() as int)
                &&& match r.1 {
                    WriteProgress::Flushed => ob1.len() == 0 && t1.len() == 0,
                    WriteProgress::Blocked => final(self).current_view() is Some,
                    _ => true,
                }
                &&& (ob0.len() == 0 ==> r.1 == WriteProgress::Flushed)
            }),
    {
        let ghost ob0 = self.outbound_bytes();
        let ghost t0 = self.tags();
        let ghost sunk0 = sink.sunk();
        let mut done: Vec<Option<C>> = Vec::new();
        loop
            invariant
                ob0 == old(self).outbound_bytes(),
                t0 == old(self).tags(),
                sunk0 == old(sink).sunk(),
                self.wf(),
                done@.len() <= t0.len(),
                done@ == t0.take(done@.len() as int),
                self.tags() == t0.skip(done@.len() as int),
                self.outbound_bytes().len() <= ob0.len(),
                self.outbound_bytes() == ob0.skip(ob0.len() - self.outbound_bytes().len()),
                sink.sunk() == sunk0 + ob0.take(ob0.len() - self.outbound_bytes().len()),
            decreases
                    self.queued().len(),
                    (match self.current_view() {
                        Some((p, _)) => p.len() + 1,
                        None => 0,
                    }),
        {
            let has_current = self.current.is_some();
            if !has_current {
                let ghost q0 = self.queued();
                let ghost ob_entry = self.outbound_bytes();
                let ghost tags_entry = self.tags();
                let next = self.dequeue();
                match next {
                    None => {
                        proof {
                            assert(self.outbound_bytes() =~= Seq::<u8>::empty());
                            assert(self.tags() =~= Seq::<Option<C>>::empty());
                        }
                        return (done, WriteProgress::Flushed);
                    },
                    Some((e, c)) => {
                        self.current = Some((e, c));
                        proof {
                            assert(queued_bytes(q0) == q0[0].0.wire_bytes() + queued_bytes(
                                q0.skip(1),
                            ));
                            assert(self.queued() == q0.skip(1));
                            assert(self.outbound_bytes() =~= ob_entry);
                            assert(self.queued().map_values(
                                |fc: (FrameView, Option<C>)| fc.1,
                            ) =~= q0.map_values(|fc: (FrameView, Option<C>)| fc.1).skip(1));
                            assert(self.tags() =~= tags_entry);
                        }
                    },
                }
            } else {
                let ghost ob_it = self.outbound_bytes();
                let ghost tags_it = self.tags();
                let ghost sunk_it = sink.sunk();
                let (mut e, c) = match self.current.take() {
                    Some(x) => x,
                    None => {
                        proof {
                            assert(false);
                        }
                        return (done, WriteProgress::Failed);
                    },
                };
                let ghost p0 = e.pending();
                let ghost rest = queued_bytes(self.queued());
                proof {
                    assert(ob_it == p0 + rest);
                    assert(tags_it[0] == c);
                }
                let result = e.encode(sink);
                let ghost p1 = e.pending();
                match result {
                    EncodeResult::Finished => {
                        let ghost k = done@.len() as int;
                        done.push(c);
                        proof {
                            assert(p0.len() == 0);
                            assert(self.outbound_bytes() =~= ob_it);
                            assert(tags_it == t0.skip(k));
                            assert(tags_it.len() >= 1);
                            assert(k + 1 <= t0.len());
                            assert(c == t0.skip(k)[0]);
                            assert(c == t0[k]);
                            assert(done@ == t0.take(k).push(c));
                            assert(done@ =~= t0.take(k + 1));
                            assert(done@ =~= t0.take(done@.len() as int));
                            assert(self.tags() =~= tags_it.skip(1));
                            assert(tags_it.skip(1) =~= t0.skip(done@.len() as int));
                            assert(sink.sunk() == sunk_it + p0.take(0));
                            assert(sunk_it + p0.take(0) =~= sunk_it);
                        }
                    },
                    EncodeResult::Wrote(_) => {
                        self.current = Some((e, c));
                        proof {
                            lemma_outbound_step(p0, p1, rest, sunk0, ob0);
                            lemma_prefix_compose(ob0, ob_it, (p0.len() - p1.len()) as int, sunk0, sunk_it);
                            assert(self.outbound_bytes() == p1 + rest);
                            assert(self.tags() =~= tags_it);
                        }
                    },
                    EncodeResult::WouldBlock(_) => {
                        self.current = Some((e, c));
                        proof {
                            lemma_outbound_step(p0, p1, rest, sunk0, ob0);
                            lemma_prefix_compose(ob0, ob_it, (p0.len() - p1.len()) as int, sunk0, sunk_it);
                            assert(self.outbound_bytes() == p1 + rest);
                            assert(self.tags() =~= tags_it);
                        }
                        return (done, WriteProgress::Blocked);
                    },
                    EncodeResult::Eof => {
                        self.current = Some((e, c));
                        proof {
                            lemma_outbound_step(p0, p1, rest, sunk0, ob0);
                            lemma_prefix_compose(ob0, ob_it, (p0.len() - p1.len()) as int, sunk0, sunk_it);
                            assert(self.outbound_bytes() == p1 + rest);
                            assert(self.tags() =~= tags_it);
                        }
                        return (done, WriteProgress::Closed);
                    },
                    EncodeResult::Error => {
                        self.current = Some((e, c));
                        proof {
                            lemma_outbound_step(p0, p1, rest, sunk0, ob0);
                            lemma_prefix_compose(ob0, ob_it, (p0.len() - p1.len()) as int, sunk0, sunk_it);
                            assert(self.outbound_bytes() == p1 + rest);
                            assert(self.tags() =~= tags_it);
                        }
                        return (done, WriteProgress::Failed);
                    },
                }
            }
        }
    }
}

/// The PING reply owed to a PING without ACK: the same opaque bytes with
/// the ACK flag set (on the wire: the input with the flag byte changed).
pub open spec fn spec_ping_ack(opaque: u64) -> FrameView {
    FrameView {
        header: FrameHeader {
            length: 8,
            kind: Kind::Ping,
            flag: FLAG_ACK,
            id: StreamIdentifier(0),
        },
        payload: PayloadView::Ping { opaque },
    }
}

/// The SETTINGS acknowledgement owed to a SETTINGS frame: length zero,
/// ACK set, stream zero.
pub open spec fn spec_settings_ack() -> FrameView {
    FrameView {
        header: FrameHeader {
            length: 0,
            kind: Kind::Settings,
            flag: FLAG_ACK,
            id: StreamIdentifier(0),
        },
        payload: PayloadView::Settings { settings: Seq::<crate::frame::Setting>::empty() },
    }
}

/// The RST_STREAM frame answering a stream error.
pub open spec fn spec_rst_frame(id: StreamIdentifier, error: ErrorCode) -> FrameView {
    FrameView {
        header: FrameHeader { length: 4, kind: Kind::Reset, flag: 0, id },
        payload: PayloadView::Reset { error },
    }
}

/// The GOAWAY frame answering a connection error, with no debug bytes.
pub open spec fn spec_goaway_frame(last: StreamIdentifier, error: ErrorCode) -> FrameView {
    FrameView {
        header: FrameHeader { length: 8, kind: Kind::GoAway, flag: 0, id: StreamIdentifier(0) },
        payload: PayloadView::GoAway { last, error, data: Seq::<u8>::empty() },
    }
}

/// The flag bytes the library itself puts on frames carry no undefined,
/// PADDED or PRIORITY bits.
proof fn lemma_own_flag_bits()
    ensures
        FLAG_ACK & 0xd2 == 0,
        FLAG_ACK & crate::frame::FLAG_PADDED == 0,
        FLAG_ACK & crate::frame::FLAG_PRIORITY == 0,
        0u8 & 0xd2 == 0,
        0u8 & crate::frame::FLAG_PADDED == 0,
        0u8 & crate::frame::FLAG_PRIORITY == 0,
{
    assert(1u8 & 0xd2 == 0 && 1u8 & 8 == 0 && 1u8 & 0x20 == 0 && 0u8 & 0xd2 == 0 && 0u8 & 8 == 0
        && 0u8 & 0x20 == 0) by (bit_vector);
}

/// Build the PING reply.
pub fn ping_ack_frame(opaque: u64) -> (r: Frame)
    ensures
        r@ == spec_ping_ack(opaque),
        r@.wf(),
{
    proof {
        lemma_own_flag_bits();
    }
    Frame {
        header: FrameHeader {
            length: 8,
            kind: Kind::Ping,
            flag: crate::frame::FLAG_ACK,
            id: StreamIdentifier(0),
        },
        payload: Payload::Ping(opaque),
    }
}

/// Build the SETTINGS acknowledgement.
pub fn settings_ack_frame() -> (r: Frame)
    ensures
        r@ == spec_settings_ack(),
        r@.wf(),
{
    proof {
        lemma_own_flag_bits();
    }
    let empty: Vec<u8> = Vec::new();
    let s = crate::buf::slice_of_bytes(empty.as_slice());
    let ts = TypedSlice::new(s);
    proof {
        assert(crate::parser::settings_of(ts.bytes()) =~= Seq::<crate::frame::Setting>::empty());
    }
    Frame {
        header: FrameHeader {
            length: 0,
            kind: Kind::Settings,
            flag: crate::frame::FLAG_ACK,
            id: StreamIdentifier(0),
        },
        payload: Payload::Settings(ts),
    }
}

/// Build the RST_STREAM frame answering a stream error.
pub fn rst_frame(id: StreamIdentifier, error: ErrorCode) -> (r: Frame)
    requires
        id.0 < 0x8000_0000,
    ensures
        r@ == spec_rst_frame(id, error),
        r@.wf(),
{
    proof {
        lemma_own_flag_bits();
    }
    Frame {
        header: FrameHeader { length: 4, kind: Kind::Reset, flag: 0, id },
        payload: Payload::Reset(error),
    }
}

/// Build the GOAWAY frame answering a connection error.
pub fn goaway_frame(last: StreamIdentifier, error: ErrorCode) -> (r: Frame)
    requires
        last.0 < 0x8000_0000,
    ensures
        r@ == spec_goaway_frame(last, error),
        r@.wf(),
{
    proof {
        lemma_own_flag_bits();
    }
    let empty: Vec<u8> = Vec::new();
    let s = crate::buf::slice_of_bytes(empty.as_slice());
    proof {
        assert(crate::buf::slice_bytes(s) =~= Seq::<u8>::empty());
    }
    Frame {
        header: FrameHeader { length: 8, kind: Kind::GoAway, flag: 0, id: StreamIdentifier(0) },
        payload: Payload::GoAway { last, error, data: s },
    }
}

/// Everything one received frame does to the connection's HTTP/2 state:
/// the stream table afterwards, the highest peer stream id, whether the
/// connection is shutting down, the frames queued in answer, and what the
/// caller is told (dispatch this stream to the handler, or an error).
pub struct ApplyEffect {
    pub streams: Map<u32, State>,
    pub max_remote: u32,
    pub closing: bool,
    pub enqueued: Seq<FrameView>,
    pub result: Result<Option<StreamIdentifier>, Error>,
}

/// What applying one received frame to the connection state does, as a
/// server. Frames on stream zero are connection-level: PING is answered
/// with its ACK, SETTINGS with a SETTINGS ACK, GOAWAY starts shutdown,
/// WINDOW_UPDATE and unknown kinds are ignored, anything else kills the
/// connection. A PUSH_PROMISE from a client, or SETTINGS, PING or GOAWAY
/// on a nonzero stream, kills the connection. Everything else goes through
/// the stream state machine; a HEADERS frame may only open a stream with a
/// fresh odd id, and opening one implicitly retires lower idle ids.
pub open spec fn spec_apply(
    streams: Map<u32, State>,
    max_remote: u32,
    closing: bool,
    f: FrameView,
) -> ApplyEffect {
    let kind = f.payload.kind();
    let id = f.header.id.0;
    let flag = f.header.flag;
    let unchanged = ApplyEffect {
        streams,
        max_remote,
        closing,
        enqueued: Seq::<FrameView>::empty(),
        result: Ok(None),
    };
    let kill = ApplyEffect {
        streams,
        max_remote,
        closing: true,
        enqueued: seq![
            spec_goaway_frame(StreamIdentifier(max_remote), ErrorCode(ERROR_PROTOCOL)),
        ],
        result: Err(Error::Connection(ErrorCode(ERROR_PROTOCOL))),
    };
    if id == 0 {
        match kind {
            Kind::Ping => if flag & FLAG_ACK == 0 {
                ApplyEffect {
                    streams,
                    max_remote,
                    closing,
                    enqueued: seq![spec_ping_ack(f.payload->opaque)],
                    result: Ok(None),
                }
            } else {
                unchanged
            },
            Kind::Settings => if flag & FLAG_ACK == 0 {
                ApplyEffect {
                    streams,
                    max_remote,
                    closing,
                    enqueued: seq![spec_settings_ack()],
                    result: Ok(None),
                }
            } else {
                unchanged
            },
            Kind::GoAway => ApplyEffect {
                streams,
                max_remote,
                closing: true,
                enqueued: Seq::<FrameView>::empty(),
                result: Ok(None),
            },
            Kind::WindowUpdate => unchanged,
            Kind::Unregistered => unchanged,
            _ => kill,
        }
    } else if kind == Kind::Settings || kind == Kind::Ping || kind == Kind::GoAway || kind
        == Kind::PushPromise {
        kill
    } else if kind == Kind::Unregistered {
        unchanged
    } else {
        let st0 = if streams.contains_key(id) {
            streams[id]
        } else {
            State::Idle
        };
        if kind == Kind::Headers && st0 == State::Idle && (id % 2 == 0 || id <= max_remote) {
            kill
        } else {
            match spec_transition(st0, kind, flag & crate::frame::FLAG_END_STREAM != 0,
                Direction::Recv) {
                Transition::Next(s2) => ApplyEffect {
                    streams: streams.insert(id, s2),
                    max_remote: if kind == Kind::Headers && st0 == State::Idle {
                        id
                    } else {
                        max_remote
                    },
                    closing,
                    enqueued: Seq::<FrameView>::empty(),
                    result: Ok(
                        if kind == Kind::Headers && flag & FLAG_END_HEADERS != 0 {
                            Some(f.header.id)
                        } else {
                            None
                        },
                    ),
                },
                Transition::StreamError(c) => ApplyEffect {
                    streams: streams.insert(id, State::Closed),
                    max_remote,
                    closing,
                    enqueued: seq![spec_rst_frame(f.header.id, c)],
                    result: Ok(None),
                },
                Transition::ConnectionError(c) => ApplyEffect {
                    streams,
                    max_remote,
                    closing: true,
                    enqueued: seq![spec_goaway_frame(StreamIdentifier(max_remote), c)],
                    result: Err(Error::Connection(c)),
                },
            }
        }
    }
}

/// The per-connection HTTP/2 state: the stream table, the outbound FIFO,
/// the highest peer-initiated stream id, and whether GOAWAY processing has
/// begun.
pub struct Http2<C> {
    streams: HashMap<u32, State>,
    /// The outbound frame FIFO.
    pub outgoing: Outgoing<C>,
    max_remote: u32,
    closing: bool,
}

impl<C> Http2<C> {
    /// The stream table holds only valid 31-bit ids, and the outbound
    /// queue only well-formed frames.
    pub closed spec fn wf(self) -> bool {
        self.max_remote < 0x8000_0000 && self.outgoing.wf()
    }

    /// The stream table: each known stream's state by id.
    pub closed spec fn streams_view(&self) -> Map<u32, State> {
        self.streams@
    }

    /// The highest peer-initiated stream id seen so far.
    pub closed spec fn max_remote_view(&self) -> u32 {
        self.max_remote
    }

    /// Whether the connection has begun shutting down.
    pub closed spec fn closing_view(&self) -> bool {
        self.closing
    }

    /// The outbound FIFO, as a spec value, for contracts written outside
    /// this module.
    pub closed spec fn outgoing_view(&self) -> Outgoing<C> {
        self.outgoing
    }

    /// A fresh connection: no streams, nothing queued.
    pub fn new() -> (r: Http2<C>)
        ensures
            r.wf(),
            r.streams_view() == Map::<u32, State>::empty(),
            r.max_remote_view() == 0u32,
            !r.closing_view(),
            r.outgoing_view().queued().len() == 0,
            r.outgoing_view().current_view() is None,
            r.outgoing_view().wf(),
    {
        Http2 {
            streams: HashMap::new(),
            outgoing: Outgoing::new(),
            max_remote: 0,
            closing: false,
        }
    }

    /// The stream a frame with this id belongs to, created idle on first
    /// reference, as streams come into being on demand.
    pub fn stream(&mut self, id: StreamIdentifier) -> (r: crate::stream::Stream)
        ensures
            r.id == id,
            r.state == (if old(self).streams_view().contains_key(id.0) {
                old(self).streams_view()[id.0]
            } else {
                State::Idle
            }),
            final(self).streams_view() == old(self).streams_view().insert(id.0, r.state),
            final(self).max_remote_view() == old(self).max_remote_view(),
            final(self).closing_view() == old(self).closing_view(),
            final(self).outgoing_view() == old(self).outgoing_view(),
            old(self).wf() ==> final(self).wf(),
    {
        let key = id.0;
        let state = match self.streams.get(&key) {
            Some(s) => *s,
            None => State::Idle,
        };
        self.streams.insert(key, state);
        crate::stream::Stream { id, state }
    }

    /// Queue a well-formed frame on this connection's outbound FIFO.
    pub fn enqueue(&mut self, frame: Frame, cb: Option<C>)
        requires
            old(self).wf(),
            frame@.wf(),
        ensures
            final(self).wf(),
            final(self).outgoing_view().queued() == old(self).outgoing_view().queued().push(
                (frame@, cb),
            ),
            final(self).outgoing_view().current_view() == old(
                self,
            ).outgoing_view().current_view(),
            final(self).streams_view() == old(self).streams_view(),
            final(self).max_remote_view() == old(self).max_remote_view(),
            final(self).closing_view() == old(self).closing_view(),
    {
        self.outgoing.enqueue(frame, cb)
    }

    /// Whether nothing at all is owed to the socket.
    pub fn outgoing_idle(&self) -> (r: bool)
        ensures
            r == (self.outgoing_view().queued().len() == 0 && self.outgoing_view().current_view()
                is None),
    {
        self.outgoing.is_idle()
    }

    /// Drive the outbound FIFO into the sink; see `Outgoing::write_all`.
    pub fn write_outgoing<S: Sink>(&mut self, sink: &mut S) -> (r: (
        Vec<Option<C>>,
        WriteProgress,
    ))
        requires
            old(self).wf(),
        ensures
            final(self).wf(),
            final(self).streams_view() == old(self).streams_view(),
            final(self).max_remote_view() == old(self).max_remote_view(),
            final(self).closing_view() == old(self).closing_view(),
            ({
                let ob0 = old(self).outgoing_view().outbound_bytes();
                let ob1 = final(self).outgoing_view().outbound_bytes();
                let t0 = old(self).outgoing_view().tags();
                let t1 = final(self).outgoing_view().tags();
                &&& ob1.len() <= ob0.len()
                &&& ob1 == ob0.skip(ob0.len() - ob1.len())
                &&& final(sink).sunk() == old(sink).sunk() + ob0.take(ob0.len() - ob1.len())
                &&& r.0@.len() <= t0.len()
                &&& r.0@ == t0.take(r.0@.len() as int)
                &&& t1 == t0.skip(r.0@.len() as int)
                &&& (r.1 == WriteProgress::Flushed ==> ob1.len() == 0 && t1.len() == 0)
                &&& (ob0.len() == 0 ==> r.1 == WriteProgress::Flushed)
            }),
    {
        self.outgoing.write_all(sink)
    }

    /// Queue a GOAWAY carrying this error code, mark the connection as
    /// closing, and report the connection error.
    pub(crate) fn connection_error(&mut self, code: ErrorCode) -> (r: Result<
        Option<StreamIdentifier>,
        Error,
    >)
        requires
            old(self).wf(),
        ensures
            final(self).wf(),
            final(self).streams_view() == old(self).streams_view(),
            final(self).max_remote_view() == old(self).max_remote_view(),
            final(self).closing_view(),
            final(self).outgoing_view().queued() == old(self).outgoing_view().queued().push(
                (spec_goaway_frame(StreamIdentifier(old(self).max_remote_view()), code), None::<C>),
            ),
            final(self).outgoing_view().current_view() == old(
                self,
            ).outgoing_view().current_view(),
            r == Err::<Option<StreamIdentifier>, Error>(Error::Connection(code)),
    {
        let f = goaway_frame(StreamIdentifier(self.max_remote), code);
        self.outgoing.enqueue(f, None);
        self.closing = true;
        Err(Error::Connection(code))
    }

    /// Apply one frame received from the peer, exactly as `spec_apply`
    /// says: answer what the protocol owes (PING ACK, SETTINGS ACK,
    /// RST_STREAM, GOAWAY), move the stream's state machine, and tell the
    /// caller either which stream to dispatch to the handler, or the
    /// connection error on which to stop reading.
    pub fn apply(&mut self, frame: Frame) -> (r: Result<Option<StreamIdentifier>, Error>)
        requires
            old(self).wf(),
            frame.header.id.0 < 0x8000_0000,
        ensures
            final(self).wf(),
            ({
                let e = spec_apply(
                    old(self).streams_view(),
                    old(self).max_remote_view(),
                    old(self).closing_view(),
                    frame@,
                );
                &&& final(self).streams_view() == e.streams
                &&& final(self).max_remote_view() == e.max_remote
                &&& final(self).closing_view() == e.closing
                &&& final(self).outgoing_view().queued() == old(self).outgoing_view().queued()
                    + e.enqueued.map_values(|fv: FrameView| (fv, None::<C>))
                &&& final(self).outgoing_view().current_view() == old(
                    self,
                ).outgoing_view().current_view()
                &&& r == e.result
            }),
    {
        let ghost e = spec_apply(
            self.streams_view(),
            self.max_remote_view(),
            self.closing_view(),
            frame@,
        );
        let ghost q0 = self.outgoing.queued();
        let id = frame.header.id;
        let flag = frame.header.flag;
        let kind = frame.payload.kind();
        if id.0 == 0 {
            let r = match frame.payload {
                Payload::Ping(opaque) => {
                    if flag & FLAG_ACK == 0 {
                        let f = ping_ack_frame(opaque);
                        self.outgoing.enqueue(f, None);
                    }
                    Ok(None)
                },
                Payload::Settings(_) => {
                    if flag & FLAG_ACK == 0 {
                        let f = settings_ack_frame();
                        self.outgoing.enqueue(f, None);
                    }
                    Ok(None)
                },
                Payload::GoAway { .. } => {
                    self.closing = true;
                    Ok(None)
                },
                Payload::WindowUpdate(_) => Ok(None),
                Payload::Unregistered(_) => Ok(None),
                _ => self.connection_error(ErrorCode(ERROR_PROTOCOL)),
            };
            proof {
                assert(self.outgoing.queued() =~= q0 + e.enqueued.map_values(
                    |fv: FrameView| (fv, None::<C>),
                ));
            }
            r
        } else if matches!(kind, Kind::Settings | Kind::Ping | Kind::GoAway | Kind::PushPromise) {
            let r = self.connection_error(ErrorCode(ERROR_PROTOCOL));
            proof {
                assert(self.outgoing.queued() =~= q0 + e.enqueued.map_values(
                    |fv: FrameView| (fv, None::<C>),
                ));
            }
            r
        } else if matches!(kind, Kind::Unregistered) {
            proof {
                assert(self.outgoing.queued() =~= q0 + e.enqueued.map_values(
                    |fv: FrameView| (fv, None::<C>),
                ));
            }
            Ok(None)
        } else {
            let key = id.0;
            let st0 = match self.streams.get(&key) {
                Some(s) => *s,
                None => State::Idle,
            };
            let fresh_headers = matches!(kind, Kind::Headers) && matches!(st0, State::Idle);
            if fresh_headers && (key % 2 == 0 || key <= self.max_remote) {
                let r = self.connection_error(ErrorCode(ERROR_PROTOCOL));
                proof {
                    assert(self.outgoing.queued() =~= q0 + e.enqueued.map_values(
                        |fv: FrameView| (fv, None::<C>),
                    ));
                }
                return r;
            }
            let s = crate::stream::Stream { id, state: st0 };
            match s.apply(kind, flag, Direction::Recv) {
                Ok(st2) => {
                    self.streams.insert(key, st2.state);
                    if fresh_headers {
                        self.max_remote = key;
                    }
                    proof {
                        assert(self.outgoing.queued() =~= q0 + e.enqueued.map_values(
                            |fv: FrameView| (fv, None::<C>),
                        ));
                    }
                    if matches!(kind, Kind::Headers) && flag & FLAG_END_HEADERS != 0 {
                        Ok(Some(id))
                    } else {
                        Ok(None)
                    }
                },
                Err(Transition::StreamError(c)) => {
                    self.streams.insert(key, State::Closed);
                    let f = rst_frame(id, c);
                    self.outgoing.enqueue(f, None);
                    proof {
                        assert(self.outgoing.queued() =~= q0 + e.enqueued.map_values(
                            |fv: FrameView| (fv, None::<C>),
                        ));
                    }
                    Ok(None)
                },
                Err(Transition::ConnectionError(c)) => {
                    let r = self.connection_error(c);
                    proof {
                        assert(self.outgoing.queued() =~= q0 + e.enqueued.map_values(
                            |fv: FrameView| (fv, None::<C>),
                        ));
                    }
                    r
                },
                Err(Transition::Next(_)) => {
                    proof {
                        assert(false);
                    }
                    Ok(None)
                },
            }
        }
    }
}

/// A suffix of a suffix is a suffix, and consumed prefixes compose: facts
/// linking one iteration's progress to the loop's starting point.
proof fn lemma_prefix_compose(base: Seq<u8>, mid: Seq<u8>, w: int, sunk0: Seq<u8>, sunk_it: Seq<u8>)
    requires
        mid.len() <= base.len(),
        mid == base.skip(base.len() - mid.len()),
        0 <= w <= mid.len(),
        sunk_it == sunk0 + base.take(base.len() - mid.len()),
    ensures
        mid.skip(w) == base.skip(base.len() - (mid.len() - w)),
        sunk_it + mid.take(w) == sunk0 + base.take(base.len() - (mid.len() - w)),
{
    assert(mid.skip(w) =~= base.skip(base.len() - (mid.len() - w)));
    assert(sunk_it + mid.take(w) =~= sunk0 + base.take(base.len() - (mid.len() - w)));
}

/// A step of the current encoder consumed a prefix of the outbound bytes:
/// concatenation facts tying the encoder's pending bytes to the whole
/// outbound stream.
proof fn lemma_outbound_step(p0: Seq<u8>, p1: Seq<u8>, rest: Seq<u8>, sunk0: Seq<u8>, ob0: Seq<u8>)
    requires
        p1.len() <= p0.len(),
        p1 == p0.skip(p0.len() - p1.len()),
    ensures
        (p1 + rest).len() <= (p0 + rest).len(),
        p1 + rest == (p0 + rest).skip((p0 + rest).len() - (p1 + rest).len()),
        (p0 + rest).take((p0 + rest).len() - (p1 + rest).len()) == p0.take(p0.len() - p1.len()),
{
    let w = p0.len() - p1.len();
    assert(p1 + rest =~= (p0 + rest).skip(w));
    assert((p0 + rest).take(w) =~= p0.take(w));
}

} // verus!
