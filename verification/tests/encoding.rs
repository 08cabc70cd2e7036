//! The resumable encoder: single sub-encoders, whole frames through sinks
//! that fragment arbitrarily, and the outbound FIFO's ordering.

use transfer::encoder::{
    ClosedSink, EncodeResult, Encoder, FrameEncoder, PriorityEncoder, SliceEncoder, StutterSink,
    U32Encoder, U64Encoder, VecSink,
};
use transfer::frame::{
    ErrorCode, FrameHeader, Kind, Priority, SizeIncrement, StreamIdentifier, FLAG_END_HEADERS,
    FLAG_END_STREAM, FLAG_PRIORITY,
};
use transfer::http::{Outgoing, WriteProgress};
use transfer::parser::{Frame, Payload, TypedSlice};

fn slice_of(data: &[u8]) -> appendbuf::Slice {
    let mut buf = appendbuf::AppendBuf::new(data.len());
    assert_eq!(buf.fill(data), data.len());
    buf.slice()
}

struct Rng(u64);

impl Rng {
    fn next(&mut self) -> u64 {
        let mut x = self.0;
        x ^= x << 13;
        x ^= x >> 7;
        x ^= x << 17;
        self.0 = x;
        x
    }

    fn below(&mut self, n: u64) -> u64 {
        self.next() % n
    }

    fn bytes(&mut self, max_len: u64) -> Vec<u8> {
        let len = self.below(max_len);
        let mut out = Vec::new();
        for _ in 0..len {
            out.push(self.next() as u8);
        }
        out
    }
}

fn random_priority(rng: &mut Rng) -> Priority {
    Priority {
        exclusive: rng.below(2) == 0,
        dependency: StreamIdentifier(rng.next() as u32 & 0x7fff_ffff),
        weight: rng.next() as u8,
    }
}

fn random_frame(rng: &mut Rng) -> Frame {
    let id = StreamIdentifier(rng.next() as u32 & 0x7fff_ffff);
    let choice = rng.below(11);
    let (kind, flag, length, payload) = match choice {
        0 => {
            let data = rng.bytes(60);
            let flag = if rng.below(2) == 0 { FLAG_END_STREAM } else { 0 };
            let len = data.len() as u32;
            (Kind::Data, flag, len, Payload::Data(slice_of(&data)))
        }
        1 => {
            let block = rng.bytes(60);
            let prio = if rng.below(2) == 0 {
                Some(random_priority(rng))
            } else {
                None
            };
            let mut flag = if prio.is_some() { FLAG_PRIORITY } else { 0 };
            if rng.below(2) == 0 {
                flag |= FLAG_END_HEADERS;
            }
            let len = block.len() as u32 + if prio.is_some() { 5 } else { 0 };
            (
                Kind::Headers,
                flag,
                len,
                Payload::Headers {
                    priority: prio,
                    block: slice_of(&block),
                },
            )
        }
        2 => (
            Kind::Priority,
            0,
            5,
            Payload::Priority(random_priority(rng)),
        ),
        3 => (
            Kind::Reset,
            0,
            4,
            Payload::Reset(ErrorCode(rng.next() as u32)),
        ),
        4 => {
            let n = rng.below(10);
            let mut raw = Vec::new();
            for _ in 0..n {
                let ident = (rng.below(5) + 1) as u16;
                let value = rng.next() as u32;
                raw.push((ident >> 8) as u8);
                raw.push(ident as u8);
                raw.push((value >> 24) as u8);
                raw.push((value >> 16) as u8);
                raw.push((value >> 8) as u8);
                raw.push(value as u8);
            }
            let len = raw.len() as u32;
            (
                Kind::Settings,
                0,
                len,
                Payload::Settings(TypedSlice::new(slice_of(&raw))),
            )
        }
        5 => {
            let block = rng.bytes(60);
            let len = block.len() as u32 + 4;
            (
                Kind::PushPromise,
                0,
                len,
                Payload::PushPromise {
                    promised: StreamIdentifier(rng.next() as u32 & 0x7fff_ffff),
                    block: slice_of(&block),
                },
            )
        }
        6 => (Kind::Ping, 0, 8, Payload::Ping(rng.next())),
        7 => {
            let data = rng.bytes(60);
            let len = data.len() as u32 + 8;
            (
                Kind::GoAway,
                0,
                len,
                Payload::GoAway {
                    last: StreamIdentifier(rng.next() as u32 & 0x7fff_ffff),
                    error: ErrorCode(rng.next() as u32),
                    data: slice_of(&data),
                },
            )
        }
        8 => (
            Kind::WindowUpdate,
            0,
            4,
            Payload::WindowUpdate(SizeIncrement(rng.next() as u32)),
        ),
        9 => {
            let block = rng.bytes(60);
            let len = block.len() as u32;
            (
                Kind::Continuation,
                0,
                len,
                Payload::Continuation(slice_of(&block)),
            )
        }
        _ => {
            let block = rng.bytes(60);
            let len = block.len() as u32;
            (
                Kind::Unregistered,
                0,
                len,
                Payload::Unregistered(slice_of(&block)),
            )
        }
    };
    Frame {
        header: FrameHeader {
            length,
            kind,
            flag,
            id,
        },
        payload,
    }
}

/// Drive an encoder into a stuttering sink until it finishes.
fn drive_stuttered(encoder: &mut FrameEncoder, sink: &mut StutterSink) {
    loop {
        match encoder.encode(sink) {
            EncodeResult::Finished => break,
            EncodeResult::Wrote(_) | EncodeResult::WouldBlock(_) => continue,
            e => panic!("Bad encode result {:?}", e),
        }
    }
}

#[test]
fn test_slice_encoder() {
    let mut abuf = appendbuf::AppendBuf::new(10);
    abuf.fill(&[1, 2, 3, 4, 5, 6, 7, 8, 9, 10]);

    let mut result = VecSink::new();
    let mut one_byte_slice = SliceEncoder::from(abuf.slice().slice_to(1));
    match one_byte_slice.encode(&mut result) {
        EncodeResult::Wrote(1) => {}
        e => panic!(
            "Bad encode result {:?}, expected {:?}",
            e,
            EncodeResult::Wrote(1)
        ),
    };
    assert_eq!(&result.bytes()[..], &[1]);

    let mut result = VecSink::new();
    let mut empty_slice = SliceEncoder::from(abuf.slice().slice_to(0));
    match empty_slice.encode(&mut result) {
        EncodeResult::Finished => {}
        e => panic!(
            "Bad encode result {:?}, expected {:?}",
            e,
            EncodeResult::Finished
        ),
    };
    assert!(result.bytes().is_empty());
}

#[test]
fn test_frame_encoder() {
    let mut rng = Rng(0x5eed_5eed_5eed_5eed);
    for _ in 0..1000 {
        let frame = random_frame(&mut rng);
        let single = frame.encode_vec();
        let mut encoder = FrameEncoder::from(Frame::clone_from(&frame));
        let mut stuttered = StutterSink::new();
        drive_stuttered(&mut encoder, &mut stuttered);
        if stuttered.bytes() != &single {
            panic!(
                "Assertion error encoding {:#?}, {:#?} != {:#?} with encoder {:#?}",
                frame,
                single,
                stuttered.bytes(),
                encoder
            );
        }
    }
}

#[test]
fn test_stuttered_equals_single_call() {
    // A sink that alternates accepting one byte and would-block yields the
    // same byte stream as a single-call encode, frame after frame.
    let mut rng = Rng(0xabcd_ef01_2345_6789);
    for _ in 0..100 {
        let frame = random_frame(&mut rng);
        let single = frame.encode_vec();
        let mut encoder = FrameEncoder::from(Frame::clone_from(&frame));
        let mut sink = StutterSink::new();
        drive_stuttered(&mut encoder, &mut sink);
        assert_eq!(sink.bytes(), &single);
        assert!(encoder.done());
    }
}

#[test]
fn test_sub_encoders() {
    let mut sink = VecSink::new();
    let mut enc = U32Encoder::from(0x01020304);
    assert!(matches!(enc.encode(&mut sink), EncodeResult::Wrote(4)));
    assert!(matches!(enc.encode(&mut sink), EncodeResult::Finished));
    assert!(enc.done());

    let mut enc = U64Encoder::from(0x0102030405060708);
    assert!(matches!(enc.encode(&mut sink), EncodeResult::Wrote(8)));

    let mut enc = PriorityEncoder::new(None);
    assert!(matches!(enc.encode(&mut sink), EncodeResult::Finished));
    let mut enc = PriorityEncoder::new(Some(Priority {
        exclusive: false,
        dependency: StreamIdentifier(9),
        weight: 7,
    }));
    assert!(matches!(enc.encode(&mut sink), EncodeResult::Wrote(5)));

    assert_eq!(
        &sink.bytes()[..],
        &[1, 2, 3, 4, 1, 2, 3, 4, 5, 6, 7, 8, 0, 0, 0, 9, 7]
    );
    assert_eq!(EncodeResult::from_bytes(0), EncodeResult::Finished);
    assert_eq!(EncodeResult::from_bytes(3), EncodeResult::Wrote(3));
}

#[test]
fn test_encoder_reports_eof() {
    let frame = Frame {
        header: FrameHeader {
            length: 8,
            kind: Kind::Ping,
            flag: 0,
            id: StreamIdentifier(0),
        },
        payload: Payload::Ping(1),
    };
    let mut encoder = FrameEncoder::from(frame);
    let mut sink = ClosedSink::new();
    assert!(matches!(encoder.encode(&mut sink), EncodeResult::Eof));
}

#[test]
fn test_outgoing_fifo_order() {
    // Frames are written in enqueue order and completion tags come back in
    // that order, each only after all its frame's bytes.
    let f1 = Frame {
        header: FrameHeader {
            length: 8,
            kind: Kind::Ping,
            flag: 0,
            id: StreamIdentifier(0),
        },
        payload: Payload::Ping(0x1111_2222_3333_4444),
    };
    let f2 = Frame {
        header: FrameHeader {
            length: 5,
            kind: Kind::Data,
            flag: 0,
            id: StreamIdentifier(1),
        },
        payload: Payload::Data(slice_of(b"fifo!")),
    };
    let f3 = Frame {
        header: FrameHeader {
            length: 4,
            kind: Kind::WindowUpdate,
            flag: 0,
            id: StreamIdentifier(1),
        },
        payload: Payload::WindowUpdate(SizeIncrement(77)),
    };
    let mut expected = f1.encode_vec();
    expected.extend_from_slice(&f2.encode_vec());
    expected.extend_from_slice(&f3.encode_vec());

    let mut out: Outgoing<u32> = Outgoing::new();
    assert!(out.is_empty());
    out.enqueue(f1, Some(1));
    out.enqueue(f2, Some(2));
    out.enqueue(f3, Some(3));
    assert!(!out.is_empty());
    assert!(!out.is_idle());

    let mut sink = VecSink::new();
    let (tags, progress) = out.write_all(&mut sink);
    assert_eq!(progress, WriteProgress::Flushed);
    assert_eq!(tags, vec![Some(1), Some(2), Some(3)]);
    assert_eq!(sink.bytes(), &expected);
    assert!(out.is_idle());
}

#[test]
fn test_outgoing_resumes_after_block() {
    // A stuttering sink forces many suspensions; the byte stream and the
    // completion order still come out exactly right.
    let f1 = Frame {
        header: FrameHeader {
            length: 3,
            kind: Kind::Data,
            flag: 0,
            id: StreamIdentifier(1),
        },
        payload: Payload::Data(slice_of(b"abc")),
    };
    let f2 = Frame {
        header: FrameHeader {
            length: 8,
            kind: Kind::Ping,
            flag: 0,
            id: StreamIdentifier(0),
        },
        payload: Payload::Ping(5),
    };
    let mut expected = f1.encode_vec();
    expected.extend_from_slice(&f2.encode_vec());

    let mut out: Outgoing<u8> = Outgoing::new();
    out.enqueue(f1, Some(10));
    out.enqueue(f2, Some(20));

    let mut sink = StutterSink::new();
    let mut tags: Vec<Option<u8>> = Vec::new();
    loop {
        let (mut done, progress) = out.write_all(&mut sink);
        tags.append(&mut done);
        match progress {
            WriteProgress::Flushed => break,
            WriteProgress::Blocked => continue,
            p => panic!("Bad write progress {:?}", p),
        }
    }
    assert_eq!(tags, vec![Some(10), Some(20)]);
    assert_eq!(sink.bytes(), &expected);
}
