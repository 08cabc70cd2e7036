//! Server behaviour: the protocol's owed answers (PING ACK, SETTINGS ACK,
//! GOAWAY, RST_STREAM), the stream state machine's edges, the connection
//! preface, and the reactor slab's re-entrancy sentinel.

use transfer::connection::Connection;
use transfer::encoder::VecSink;
use transfer::frame::{
    ErrorCode, FrameHeader, Kind, SettingIdentifier, SizeIncrement, StreamIdentifier,
    ERROR_PROTOCOL, ERROR_STREAM_CLOSED, FLAG_ACK, FLAG_END_HEADERS, FLAG_END_STREAM,
};
use transfer::http::{Error, Http2, WriteProgress};
use transfer::parser::{Frame, Payload, TypedSlice};
use transfer::rt::{deregister_action, ready_interest_update, Interest, RegAction, Slab};
use transfer::stream::{Direction, State, Stream, Transition};

fn slice_of(data: &[u8]) -> appendbuf::Slice {
    let mut buf = appendbuf::AppendBuf::new(data.len());
    assert_eq!(buf.fill(data), data.len());
    buf.slice()
}

const PREFACE: &[u8] = b"PRI * HTTP/2.0\r\n\r\nSM\r\n\r\n";

fn parse_wire(bytes: &[u8]) -> Frame {
    let header = FrameHeader::parse(bytes).unwrap();
    Frame::parse(header, slice_of(&bytes[9..])).unwrap()
}

/// Flush everything a connection has queued and hand the bytes back.
fn flush<C>(http2: &mut Http2<C>) -> Vec<u8> {
    let mut sink = VecSink::new();
    let (_, progress) = http2.write_outgoing(&mut sink);
    assert_eq!(progress, WriteProgress::Flushed);
    sink.into_vec()
}

#[test]
fn test_ping_is_answered_with_ack() {
    // A PING with opaque bytes 0x0102030405060708 and no ACK: the reply is
    // the identical frame with the ACK flag, so the wire bytes equal the
    // input with byte 4 changed from 0x00 to 0x01.
    let ping = Frame {
        header: FrameHeader {
            length: 8,
            kind: Kind::Ping,
            flag: 0,
            id: StreamIdentifier(0),
        },
        payload: Payload::Ping(0x0102030405060708),
    };
    let input = ping.encode_vec();

    let mut http2: Http2<u32> = Http2::new();
    assert_eq!(http2.apply(ping), Ok(None));
    let reply = flush(&mut http2);

    let mut expected = input.clone();
    assert_eq!(expected[4], 0x00);
    expected[4] = 0x01;
    assert_eq!(reply, expected);
}

#[test]
fn test_ping_ack_is_not_answered() {
    let ack = Frame {
        header: FrameHeader {
            length: 8,
            kind: Kind::Ping,
            flag: FLAG_ACK,
            id: StreamIdentifier(0),
        },
        payload: Payload::Ping(7),
    };
    let mut http2: Http2<u32> = Http2::new();
    assert_eq!(http2.apply(ack), Ok(None));
    assert!(http2.outgoing_idle());
}

#[test]
fn test_settings_is_answered_with_ack() {
    // SETTINGS with one entry (SETTINGS_MAX_CONCURRENT_STREAMS = 100):
    // 9-byte header plus 6-byte payload in; the reply is an ACK with
    // length 0, kind 4, flags 0x01, stream 0.
    let raw = [0x0, 0x3, 0x0, 0x0, 0x0, 0x64];
    let settings = Frame {
        header: FrameHeader {
            length: 6,
            kind: Kind::Settings,
            flag: 0,
            id: StreamIdentifier(0),
        },
        payload: Payload::Settings(TypedSlice::new(slice_of(&raw))),
    };
    assert_eq!(settings.encode_vec().len(), 9 + 6);
    match &settings.payload {
        Payload::Settings(ts) => {
            assert_eq!(
                ts.get(0).identifier(),
                Some(SettingIdentifier::MaxConcurrentStreams)
            );
            assert_eq!(ts.get(0).value, 100);
        }
        p => panic!("wrong payload {:?}", p),
    }

    let mut http2: Http2<u32> = Http2::new();
    assert_eq!(http2.apply(settings), Ok(None));
    let reply = flush(&mut http2);
    assert_eq!(reply, vec![0x0, 0x0, 0x0, 0x4, 0x01, 0x0, 0x0, 0x0, 0x0]);
}

#[test]
fn test_data_on_stream_zero_is_a_connection_error() {
    // DATA on stream 0 (length 5, payload "hello"): the connection dies
    // with GOAWAY PROTOCOL_ERROR and nothing is dispatched to a handler.
    let data = Frame {
        header: FrameHeader {
            length: 5,
            kind: Kind::Data,
            flag: 0,
            id: StreamIdentifier(0),
        },
        payload: Payload::Data(slice_of(b"hello")),
    };
    let mut http2: Http2<u32> = Http2::new();
    let r = http2.apply(data);
    assert_eq!(r, Err(Error::Connection(ErrorCode(ERROR_PROTOCOL))));

    let bytes = flush(&mut http2);
    let goaway = parse_wire(&bytes);
    assert_eq!(goaway.header.kind, Kind::GoAway);
    assert_eq!(goaway.header.id, StreamIdentifier(0));
    match goaway.payload {
        Payload::GoAway { last, error, ref data } => {
            assert_eq!(last, StreamIdentifier(0));
            assert_eq!(error, ErrorCode(ERROR_PROTOCOL));
            assert!(data.is_empty());
        }
        ref p => panic!("wrong payload {:?}", p),
    }
}

#[test]
fn test_headers_then_data_dispatches_once() {
    // HEADERS with END_HEADERS on stream 3, then DATA with END_STREAM:
    // the stream goes Idle -> Open -> HalfClosedRemote and the handler is
    // told to run exactly once.
    let headers = Frame {
        header: FrameHeader {
            length: 4,
            kind: Kind::Headers,
            flag: FLAG_END_HEADERS,
            id: StreamIdentifier(3),
        },
        payload: Payload::Headers {
            priority: None,
            block: slice_of(b"hblk"),
        },
    };
    let data = Frame {
        header: FrameHeader {
            length: 5,
            kind: Kind::Data,
            flag: FLAG_END_STREAM,
            id: StreamIdentifier(3),
        },
        payload: Payload::Data(slice_of(b"hello")),
    };

    let mut http2: Http2<u32> = Http2::new();
    assert_eq!(http2.stream(StreamIdentifier(3)).state, State::Idle);

    let dispatched = http2.apply(headers).unwrap();
    assert_eq!(dispatched, Some(StreamIdentifier(3)));
    assert_eq!(http2.stream(StreamIdentifier(3)).state, State::Open);

    let dispatched = http2.apply(data).unwrap();
    assert_eq!(dispatched, None);
    assert_eq!(
        http2.stream(StreamIdentifier(3)).state,
        State::HalfClosedRemote
    );
    assert!(http2.outgoing_idle());
}

#[test]
fn test_data_on_idle_stream_is_a_connection_error() {
    let data = Frame {
        header: FrameHeader {
            length: 1,
            kind: Kind::Data,
            flag: 0,
            id: StreamIdentifier(3),
        },
        payload: Payload::Data(slice_of(b"x")),
    };
    let mut http2: Http2<u32> = Http2::new();
    assert_eq!(
        http2.apply(data),
        Err(Error::Connection(ErrorCode(ERROR_PROTOCOL)))
    );
}

#[test]
fn test_data_after_end_stream_is_reset() {
    // After END_STREAM the peer may not send DATA again: the server
    // answers RST_STREAM(STREAM_CLOSED) and keeps the connection.
    let mut http2: Http2<u32> = Http2::new();
    let headers = Frame {
        header: FrameHeader {
            length: 0,
            kind: Kind::Headers,
            flag: FLAG_END_HEADERS | FLAG_END_STREAM,
            id: StreamIdentifier(5),
        },
        payload: Payload::Headers {
            priority: None,
            block: slice_of(b""),
        },
    };
    assert_eq!(http2.apply(headers), Ok(Some(StreamIdentifier(5))));
    assert_eq!(
        http2.stream(StreamIdentifier(5)).state,
        State::HalfClosedRemote
    );

    let late = Frame {
        header: FrameHeader {
            length: 1,
            kind: Kind::Data,
            flag: 0,
            id: StreamIdentifier(5),
        },
        payload: Payload::Data(slice_of(b"x")),
    };
    assert_eq!(http2.apply(late), Ok(None));
    assert_eq!(http2.stream(StreamIdentifier(5)).state, State::Closed);

    let bytes = flush(&mut http2);
    let rst = parse_wire(&bytes);
    assert_eq!(rst.header.kind, Kind::Reset);
    assert_eq!(rst.header.id, StreamIdentifier(5));
    match rst.payload {
        Payload::Reset(code) => assert_eq!(code, ErrorCode(ERROR_STREAM_CLOSED)),
        ref p => panic!("wrong payload {:?}", p),
    }
}

#[test]
fn test_even_or_stale_headers_kill_the_connection() {
    let mut http2: Http2<u32> = Http2::new();
    let even = Frame {
        header: FrameHeader {
            length: 0,
            kind: Kind::Headers,
            flag: FLAG_END_HEADERS,
            id: StreamIdentifier(4),
        },
        payload: Payload::Headers {
            priority: None,
            block: slice_of(b""),
        },
    };
    assert_eq!(
        http2.apply(even),
        Err(Error::Connection(ErrorCode(ERROR_PROTOCOL)))
    );

    let mut http2: Http2<u32> = Http2::new();
    let open5 = Frame {
        header: FrameHeader {
            length: 0,
            kind: Kind::Headers,
            flag: FLAG_END_HEADERS,
            id: StreamIdentifier(5),
        },
        payload: Payload::Headers {
            priority: None,
            block: slice_of(b""),
        },
    };
    assert_eq!(http2.apply(open5), Ok(Some(StreamIdentifier(5))));
    let stale3 = Frame {
        header: FrameHeader {
            length: 0,
            kind: Kind::Headers,
            flag: FLAG_END_HEADERS,
            id: StreamIdentifier(3),
        },
        payload: Payload::Headers {
            priority: None,
            block: slice_of(b""),
        },
    };
    assert_eq!(
        http2.apply(stale3),
        Err(Error::Connection(ErrorCode(ERROR_PROTOCOL)))
    );
}

#[test]
fn test_stream_machine_edges() {
    // A sample of RFC 7540 section 5.1 edges through Stream::apply.
    let s = Stream::new(StreamIdentifier(1));
    assert_eq!(s.state, State::Idle);

    // Idle + HEADERS received opens; END_STREAM half-closes.
    let open = s.apply(Kind::Headers, 0, Direction::Recv).unwrap();
    assert_eq!(open.state, State::Open);
    let half = s
        .apply(Kind::Headers, FLAG_END_STREAM, Direction::Recv)
        .unwrap();
    assert_eq!(half.state, State::HalfClosedRemote);

    // PRIORITY never transitions, in any state.
    let p = open.apply(Kind::Priority, 0, Direction::Recv).unwrap();
    assert_eq!(p.state, State::Open);

    // RST_STREAM closes every non-idle stream.
    let closed = open.apply(Kind::Reset, 0, Direction::Send).unwrap();
    assert_eq!(closed.state, State::Closed);

    // The closed state is terminal: frames are stream errors.
    match closed.apply(Kind::Data, 0, Direction::Recv) {
        Err(Transition::StreamError(code)) => {
            assert_eq!(code, ErrorCode(ERROR_STREAM_CLOSED))
        }
        r => panic!("wrong transition {:?}", r),
    }

    // Frames other than HEADERS or PRIORITY on idle kill the connection.
    match s.apply(Kind::WindowUpdate, 0, Direction::Recv) {
        Err(Transition::ConnectionError(code)) => {
            assert_eq!(code, ErrorCode(ERROR_PROTOCOL))
        }
        r => panic!("wrong transition {:?}", r),
    }

    // Sending while half-closed (local) is a stream error; receiving DATA
    // there can close the stream.
    let local = s.apply(Kind::Headers, FLAG_END_STREAM, Direction::Send).unwrap();
    assert_eq!(local.state, State::HalfClosedLocal);
    match local.apply(Kind::Data, 0, Direction::Send) {
        Err(Transition::StreamError(code)) => assert_eq!(code, ErrorCode(ERROR_PROTOCOL)),
        r => panic!("wrong transition {:?}", r),
    }
    let done = local
        .apply(Kind::Data, FLAG_END_STREAM, Direction::Recv)
        .unwrap();
    assert_eq!(done.state, State::Closed);
}

#[test]
fn test_connection_requires_preface() {
    let mut conn: Connection<u32> = Connection::new();
    let r = conn.readable(b"GET / HTTP/1.1\r\n");
    assert_eq!(r, Err(Error::Connection(ErrorCode(ERROR_PROTOCOL))));
    assert!(conn.is_dead());
}

#[test]
fn test_connection_ping_after_preface() {
    let ping = Frame {
        header: FrameHeader {
            length: 8,
            kind: Kind::Ping,
            flag: 0,
            id: StreamIdentifier(0),
        },
        payload: Payload::Ping(0x0102030405060708),
    };
    let mut wire = PREFACE.to_vec();
    wire.extend_from_slice(&ping.encode_vec());

    let mut conn: Connection<u32> = Connection::new();
    let dispatches = conn.readable(&wire).unwrap();
    assert!(dispatches.is_empty());
    assert!(conn.wants_writable());

    let mut sink = VecSink::new();
    let (_, progress) = conn.writable(&mut sink);
    assert_eq!(progress, WriteProgress::Flushed);
    assert!(!conn.wants_writable());
    let reply = parse_wire(sink.bytes());
    assert_eq!(reply.header.kind, Kind::Ping);
    assert_eq!(reply.header.flag, FLAG_ACK);
    match reply.payload {
        Payload::Ping(opaque) => assert_eq!(opaque, 0x0102030405060708),
        ref p => panic!("wrong payload {:?}", p),
    }
}

#[test]
fn test_connection_split_preface_and_frames() {
    // The preface and the first frames may arrive fragmented arbitrarily.
    let headers = Frame {
        header: FrameHeader {
            length: 2,
            kind: Kind::Headers,
            flag: FLAG_END_HEADERS,
            id: StreamIdentifier(1),
        },
        payload: Payload::Headers {
            priority: None,
            block: slice_of(b"hi"),
        },
    };
    let mut wire = PREFACE.to_vec();
    wire.extend_from_slice(&headers.encode_vec());

    let mut conn: Connection<u32> = Connection::new();
    let mut dispatches = Vec::new();
    for chunk in wire.chunks(7) {
        dispatches.extend(conn.readable(chunk).unwrap());
    }
    assert_eq!(dispatches, vec![StreamIdentifier(1)]);
}

#[test]
fn test_slab_active_sentinel() {
    // During dispatch the slot holds the Active sentinel; check-in puts
    // the machine back, and clearing frees the token for reuse.
    let mut slab: Slab<&'static str> = Slab::new(4);
    let t1 = slab.insert("acceptor").unwrap();
    let t2 = slab.insert("connection").unwrap();
    assert_eq!(t1, 0);
    assert_eq!(t2, 1);
    assert!(!slab.is_active(t2));

    let machine = slab.checkout(t2).unwrap();
    assert_eq!(machine, "connection");
    assert!(slab.is_active(t2));
    // Re-entrant checkout of the same token yields nothing.
    assert_eq!(slab.checkout(t2), None);

    assert!(slab.checkin(t2, machine));
    assert!(!slab.is_active(t2));

    let machine = slab.checkout(t1).unwrap();
    assert_eq!(machine, "acceptor");
    assert!(slab.clear(t1));
    let t3 = slab.insert("fresh").unwrap();
    assert_eq!(t3, 0);
}

#[test]
fn test_slab_capacity() {
    let mut slab: Slab<u8> = Slab::new(2);
    assert_eq!(slab.insert(1), Some(0));
    assert_eq!(slab.insert(2), Some(1));
    assert_eq!(slab.insert(3), None);
}

#[test]
fn test_interest_decisions() {
    let current = Interest {
        readable: true,
        writable: true,
        hup: true,
    };
    let (next, action) = deregister_action(
        current,
        Interest {
            readable: false,
            writable: true,
            hup: false,
        },
    );
    assert!(next.readable && !next.writable && next.hup);
    assert_eq!(action, RegAction::Reregister(next));

    let (rest, action) = deregister_action(
        next,
        Interest {
            readable: true,
            writable: false,
            hup: false,
        },
    );
    assert!(rest.is_none_or_hup());
    assert_eq!(action, RegAction::Deregister);

    let read_only = Interest {
        readable: true,
        writable: false,
        hup: true,
    };
    let updated = ready_interest_update(read_only, true).unwrap();
    assert!(updated.writable && updated.readable);
    assert_eq!(ready_interest_update(read_only, false), None);
    assert_eq!(ready_interest_update(updated, true), None);
    let none = Interest::none();
    assert!(none.is_none_or_hup());
}

#[test]
fn test_goaway_starts_shutdown_quietly() {
    let goaway = Frame {
        header: FrameHeader {
            length: 8,
            kind: Kind::GoAway,
            flag: 0,
            id: StreamIdentifier(0),
        },
        payload: Payload::GoAway {
            last: StreamIdentifier(0),
            error: ErrorCode(0),
            data: slice_of(b""),
        },
    };
    let mut http2: Http2<u32> = Http2::new();
    assert_eq!(http2.apply(goaway), Ok(None));
    assert!(http2.outgoing_idle());

    let wu = Frame {
        header: FrameHeader {
            length: 4,
            kind: Kind::WindowUpdate,
            flag: 0,
            id: StreamIdentifier(0),
        },
        payload: Payload::WindowUpdate(SizeIncrement(100)),
    };
    assert_eq!(http2.apply(wu), Ok(None));
    assert!(http2.outgoing_idle());
}

#[test]
fn test_connection_enqueue_and_flush() {
    // The application side queues a frame on the connection; the writable
    // path hands its completion tag back after the bytes are out.
    let frame = Frame {
        header: FrameHeader {
            length: 5,
            kind: Kind::Data,
            flag: FLAG_END_STREAM,
            id: StreamIdentifier(1),
        },
        payload: Payload::Data(slice_of(b"serve")),
    };
    let expected = frame.encode_vec();

    let mut conn: Connection<u32> = Connection::new();
    assert!(!conn.wants_writable());
    conn.enqueue(frame, Some(42));
    assert!(conn.wants_writable());

    let mut sink = VecSink::new();
    let (tags, progress) = conn.writable(&mut sink);
    assert_eq!(progress, WriteProgress::Flushed);
    assert_eq!(tags, vec![Some(42)]);
    assert_eq!(sink.bytes(), &expected);
    assert!(!conn.wants_writable());
}
