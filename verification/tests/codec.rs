//! Frame parsing and encoding: round trips for every kind, each parse
//! error on an input that provokes it, zero-copy payload slices, and the
//! incremental reader on fragmented input.

use transfer::buf::sub_slice;
use transfer::connection::FrameReader;
use transfer::frame::{
    Error, ErrorCode, Flag, FrameHeader, Kind, Priority, Setting, SettingIdentifier,
    SizeIncrement, StreamIdentifier, FLAG_ACK, FLAG_END_HEADERS, FLAG_END_STREAM, FLAG_PADDED,
    FLAG_PRIORITY,
};
use transfer::parser::{Frame, Payload, TypedSlice};

fn slice_of(data: &[u8]) -> appendbuf::Slice {
    let mut buf = appendbuf::AppendBuf::new(data.len());
    assert_eq!(buf.fill(data), data.len());
    buf.slice()
}

struct Rng(u64);

impl Rng {
    fn next(&mut self) -> u64 {
        let mut x = self.0;
        x ^= x << 13;
        x ^= x >> 7;
        x ^= x << 17;
        self.0 = x;
        x
    }

    fn below(&mut self, n: u64) -> u64 {
        self.next() % n
    }

    fn bytes(&mut self, max_len: u64) -> Vec<u8> {
        let len = self.below(max_len);
        let mut out = Vec::new();
        for _ in 0..len {
            out.push(self.next() as u8);
        }
        out
    }
}

fn random_priority(rng: &mut Rng) -> Priority {
    Priority {
        exclusive: rng.below(2) == 0,
        dependency: StreamIdentifier(rng.next() as u32 & 0x7fff_ffff),
        weight: rng.next() as u8,
    }
}

fn random_frame(rng: &mut Rng) -> Frame {
    let id = StreamIdentifier(rng.next() as u32 & 0x7fff_ffff);
    let choice = rng.below(11);
    let (kind, flag, length, payload) = match choice {
        0 => {
            let data = rng.bytes(200);
            let flag = if rng.below(2) == 0 { FLAG_END_STREAM } else { 0 };
            let len = data.len() as u32;
            (Kind::Data, flag, len, Payload::Data(slice_of(&data)))
        }
        1 => {
            let block = rng.bytes(200);
            let prio = if rng.below(2) == 0 {
                Some(random_priority(rng))
            } else {
                None
            };
            let mut flag = if prio.is_some() { FLAG_PRIORITY } else { 0 };
            if rng.below(2) == 0 {
                flag |= FLAG_END_HEADERS;
            }
            let len = block.len() as u32 + if prio.is_some() { 5 } else { 0 };
            (
                Kind::Headers,
                flag,
                len,
                Payload::Headers {
                    priority: prio,
                    block: slice_of(&block),
                },
            )
        }
        2 => (
            Kind::Priority,
            0,
            5,
            Payload::Priority(random_priority(rng)),
        ),
        3 => (
            Kind::Reset,
            0,
            4,
            Payload::Reset(ErrorCode(rng.next() as u32)),
        ),
        4 => {
            let n = rng.below(30);
            let mut raw = Vec::new();
            for _ in 0..n {
                let ident = (rng.below(5) + 1) as u16;
                let value = rng.next() as u32;
                raw.push((ident >> 8) as u8);
                raw.push(ident as u8);
                raw.push((value >> 24) as u8);
                raw.push((value >> 16) as u8);
                raw.push((value >> 8) as u8);
                raw.push(value as u8);
            }
            let len = raw.len() as u32;
            (
                Kind::Settings,
                0,
                len,
                Payload::Settings(TypedSlice::new(slice_of(&raw))),
            )
        }
        5 => {
            let block = rng.bytes(200);
            let len = block.len() as u32 + 4;
            (
                Kind::PushPromise,
                0,
                len,
                Payload::PushPromise {
                    promised: StreamIdentifier(rng.next() as u32 & 0x7fff_ffff),
                    block: slice_of(&block),
                },
            )
        }
        6 => (Kind::Ping, 0, 8, Payload::Ping(rng.next())),
        7 => {
            let data = rng.bytes(200);
            let len = data.len() as u32 + 8;
            (
                Kind::GoAway,
                0,
                len,
                Payload::GoAway {
                    last: StreamIdentifier(rng.next() as u32 & 0x7fff_ffff),
                    error: ErrorCode(rng.next() as u32),
                    data: slice_of(&data),
                },
            )
        }
        8 => (
            Kind::WindowUpdate,
            0,
            4,
            Payload::WindowUpdate(SizeIncrement(rng.next() as u32)),
        ),
        9 => {
            let block = rng.bytes(200);
            let len = block.len() as u32;
            (
                Kind::Continuation,
                0,
                len,
                Payload::Continuation(slice_of(&block)),
            )
        }
        _ => {
            let block = rng.bytes(200);
            let len = block.len() as u32;
            (
                Kind::Unregistered,
                0,
                len,
                Payload::Unregistered(slice_of(&block)),
            )
        }
    };
    Frame {
        header: FrameHeader {
            length,
            kind,
            flag,
            id,
        },
        payload,
    }
}

fn parse_wire(bytes: &[u8]) -> Frame {
    let header = FrameHeader::parse(bytes).unwrap();
    Frame::parse(header, slice_of(&bytes[9..])).unwrap()
}

#[test]
fn test_convert_slice() {
    let buf = slice_of("hello world".as_bytes());
    let converted = sub_slice(&buf, 2, 4);
    assert_eq!(b"ll", &*converted);
}

#[test]
fn test_convert_frame() {
    let mut rng = Rng(0x1234_5678_9abc_def1);
    for _ in 0..100 {
        let frame = random_frame(&mut rng);
        let new_frame = Frame::clone_from(&frame);
        assert_eq!(new_frame, frame);
    }
}

#[test]
fn test_frame_parse() {
    let mut rng = Rng(0xfeed_beef_1234_5678);
    for _ in 0..100 {
        let frame = random_frame(&mut rng);
        let bytes = frame.encode_vec();
        assert_eq!(
            Frame::parse(frame.header, slice_of(&bytes[9..])).unwrap(),
            frame
        );
    }
}

#[test]
fn test_header_roundtrip() {
    let header = FrameHeader {
        length: 66051,
        kind: Kind::Settings,
        flag: FLAG_END_STREAM,
        id: StreamIdentifier(101124105),
    };
    let bytes = header.encode();
    assert_eq!(bytes, vec![0x1, 0x2, 0x3, 0x4, 0x1, 0x6, 0x7, 0x8, 0x9]);
    assert_eq!(FrameHeader::parse(&bytes).unwrap(), header);
}

#[test]
fn test_header_masks_reserved_bit() {
    let raw1 = [0x0, 0x0, 0x0, 0x0, 0x0, 0x7f, 0xff, 0xff, 0xff];
    let raw2 = [0x0, 0x0, 0x0, 0x0, 0x0, 0xff, 0xff, 0xff, 0xff];
    assert_eq!(
        FrameHeader::parse(&raw1).unwrap().id,
        FrameHeader::parse(&raw2).unwrap().id
    );
    assert_eq!(StreamIdentifier::parse(&[0xff; 4]), StreamIdentifier(0x7fff_ffff));
}

#[test]
fn test_header_incomplete() {
    assert_eq!(FrameHeader::parse(&[0u8; 8]), Err(Error::Incomplete));
}

#[test]
fn test_header_bad_flag() {
    let raw = [0x0, 0x0, 0x0, 0x0, 0x02, 0x0, 0x0, 0x0, 0x0];
    assert_eq!(FrameHeader::parse(&raw), Err(Error::BadFlag));
}

#[test]
fn test_payload_incomplete() {
    let header = FrameHeader {
        length: 8,
        kind: Kind::Ping,
        flag: 0,
        id: StreamIdentifier(0),
    };
    let r = Frame::parse(header, slice_of(&[1, 2, 3]));
    assert!(matches!(r, Err(Error::Incomplete)));
}

#[test]
fn test_payload_bad_length() {
    let header = FrameHeader {
        length: 5,
        kind: Kind::Ping,
        flag: 0,
        id: StreamIdentifier(0),
    };
    let r = Frame::parse(header, slice_of(&[1, 2, 3, 4, 5]));
    assert!(matches!(r, Err(Error::BadLength)));
}

#[test]
fn test_payload_bad_padding() {
    // A DATA frame of length 4 declaring 4 pad bytes: the pad byte itself
    // no longer fits.
    let header = FrameHeader {
        length: 4,
        kind: Kind::Data,
        flag: FLAG_PADDED,
        id: StreamIdentifier(1),
    };
    let r = Frame::parse(header, slice_of(&[4, 0, 0, 0]));
    assert!(matches!(r, Err(Error::BadPadding)));
}

#[test]
fn test_payload_padding_stripped() {
    // length 6: pad byte (2), three data bytes, two pad bytes.
    let header = FrameHeader {
        length: 6,
        kind: Kind::Data,
        flag: FLAG_PADDED,
        id: StreamIdentifier(1),
    };
    let frame = Frame::parse(header, slice_of(&[2, 7, 8, 9, 0, 0])).unwrap();
    match frame.payload {
        Payload::Data(ref s) => assert_eq!(&**s, &[7, 8, 9]),
        ref p => panic!("wrong payload {:?}", p),
    }
}

#[test]
fn test_payload_bad_setting() {
    let header = FrameHeader {
        length: 5,
        kind: Kind::Settings,
        flag: 0,
        id: StreamIdentifier(0),
    };
    let r = Frame::parse(header, slice_of(&[0, 3, 0, 0, 0]));
    assert!(matches!(r, Err(Error::BadSetting)));

    // An ACK must carry an empty payload.
    let header = FrameHeader {
        length: 6,
        kind: Kind::Settings,
        flag: FLAG_ACK,
        id: StreamIdentifier(0),
    };
    let r = Frame::parse(header, slice_of(&[0, 3, 0, 0, 0, 100]));
    assert!(matches!(r, Err(Error::BadSetting)));
}

#[test]
fn test_settings_view() {
    let raw = [0x0, 0x3, 0x0, 0x0, 0x0, 0x64, 0x0, 0x4, 0x0, 0x1, 0x0, 0x0];
    let header = FrameHeader {
        length: 12,
        kind: Kind::Settings,
        flag: 0,
        id: StreamIdentifier(0),
    };
    let frame = Frame::parse(header, slice_of(&raw)).unwrap();
    match frame.payload {
        Payload::Settings(ref ts) => {
            assert_eq!(ts.len(), 2);
            let first = ts.get(0);
            assert_eq!(first.identifier, 3);
            assert_eq!(first.value, 100);
            assert_eq!(
                first.identifier(),
                Some(SettingIdentifier::MaxConcurrentStreams)
            );
            let all = ts.to_vec();
            assert_eq!(all[1], Setting { identifier: 4, value: 0x10000 });
        }
        ref p => panic!("wrong payload {:?}", p),
    }
}

#[test]
fn test_unknown_kind_passthrough() {
    let header = FrameHeader {
        length: 3,
        kind: Kind::Unregistered,
        flag: 0,
        id: StreamIdentifier(9),
    };
    let frame = Frame::parse(header, slice_of(&[0xde, 0xad, 0xbf])).unwrap();
    match frame.payload {
        Payload::Unregistered(ref s) => assert_eq!(&**s, &[0xde, 0xad, 0xbf]),
        ref p => panic!("wrong payload {:?}", p),
    }
}

#[test]
fn test_zero_copy_slices() {
    // The payload slice of a parsed frame points into the buffer the frame
    // was parsed from: no payload byte is copied.
    let payload: &[u8] = b"hello zero copy";
    let mut wire = vec![0, 0, payload.len() as u8, 0, 0, 0, 0, 0, 7];
    wire.extend_from_slice(payload);
    let mut buf = appendbuf::AppendBuf::new(wire.len());
    assert_eq!(buf.fill(&wire), wire.len());
    let whole = buf.slice();
    let base = whole.as_ptr() as usize;

    let header = FrameHeader::parse(&whole).unwrap();
    let frame = Frame::parse(header, whole.slice_from(9)).unwrap();
    match frame.payload {
        Payload::Data(ref s) => {
            let p = s.as_ptr() as usize;
            assert_eq!(p, base + 9);
            assert_eq!(&**s, payload);
        }
        ref p => panic!("wrong payload {:?}", p),
    }
}

#[test]
fn test_two_frames_in_one_read() {
    // Two whole frames arriving in one read parse in order, and both
    // payload slices view the same read buffer.
    let ping = Frame {
        header: FrameHeader {
            length: 8,
            kind: Kind::Ping,
            flag: 0,
            id: StreamIdentifier(0),
        },
        payload: Payload::Ping(0x0102030405060708),
    };
    let data = Frame {
        header: FrameHeader {
            length: 5,
            kind: Kind::Data,
            flag: 0,
            id: StreamIdentifier(3),
        },
        payload: Payload::Data(slice_of(b"hello")),
    };
    let mut wire = ping.encode_vec();
    wire.extend_from_slice(&data.encode_vec());
    assert_eq!(wire.len(), 18 + 8 + 5);

    let mut reader = FrameReader::new();
    let frames = reader.feed(&wire).unwrap();
    assert_eq!(frames.len(), 2);
    assert_eq!(frames[0], ping);
    assert_eq!(frames[1], data);
}

#[test]
fn test_incremental_parse_byte_by_byte() {
    // Feeding a frame's bytes one at a time yields nothing at every
    // intermediate step and the whole frame at the last byte.
    let frame = Frame {
        header: FrameHeader {
            length: 4,
            kind: Kind::WindowUpdate,
            flag: 0,
            id: StreamIdentifier(5),
        },
        payload: Payload::WindowUpdate(SizeIncrement(0x01020304)),
    };
    let wire = frame.encode_vec();
    let mut reader = FrameReader::new();
    for (i, b) in wire.iter().enumerate() {
        let frames = reader.feed(&[*b]).unwrap();
        if i + 1 < wire.len() {
            assert!(frames.is_empty());
        } else {
            assert_eq!(frames.len(), 1);
            assert_eq!(frames[0], frame);
        }
    }
}

#[test]
fn test_incremental_parse_fragmentation() {
    // Any fragmentation of a byte stream yields the same frames as the
    // concatenation.
    let mut rng = Rng(0x0bad_cafe_0bad_cafe);
    let mut wire = Vec::new();
    let mut expected = Vec::new();
    for _ in 0..8 {
        let f = random_frame(&mut rng);
        wire.extend_from_slice(&f.encode_vec());
        expected.push(f);
    }

    let mut whole = FrameReader::new();
    let from_whole = whole.feed(&wire).unwrap();
    assert_eq!(from_whole.len(), expected.len());

    let mut reader = FrameReader::new();
    let mut got = Vec::new();
    let mut i = 0;
    while i < wire.len() {
        let step = 1 + (rng.below(40) as usize);
        let end = (i + step).min(wire.len());
        got.extend(reader.feed(&wire[i..end]).unwrap());
        i = end;
    }
    assert_eq!(got.len(), expected.len());
    for (g, e) in got.iter().zip(expected.iter()) {
        assert_eq!(g, e);
    }
}

#[test]
fn test_reader_rejects_oversized_frame() {
    // length beyond SETTINGS_MAX_FRAME_SIZE is a structural error.
    let wire = [0x0, 0x40, 0x1, 0x0, 0x0, 0x0, 0x0, 0x0, 0x1];
    let mut reader = FrameReader::new();
    assert_eq!(reader.feed(&wire), Err(Error::BadLength));
}

#[test]
fn test_priority_fields_roundtrip() {
    let frame = Frame {
        header: FrameHeader {
            length: 5,
            kind: Kind::Priority,
            flag: 0,
            id: StreamIdentifier(7),
        },
        payload: Payload::Priority(Priority {
            exclusive: true,
            dependency: StreamIdentifier(5),
            weight: 200,
        }),
    };
    let wire = frame.encode_vec();
    assert_eq!(&wire[9..], &[0x80, 0, 0, 5, 200]);
    assert_eq!(parse_wire(&wire), frame);
}

#[test]
fn test_kind_and_flag_bytes() {
    for b in 0..10u8 {
        assert_eq!(Kind::new(b).encode(), b);
    }
    assert_eq!(Kind::new(200), Kind::Unregistered);
    assert_eq!(Kind::Unregistered.encode(), 255);

    assert_eq!(Flag::EndStream.bit(), 0x1);
    assert_eq!(Flag::Ack.bit(), 0x1);
    assert_eq!(Flag::EndHeaders.bit(), 0x4);
    assert_eq!(Flag::Padded.bit(), 0x8);
    assert_eq!(Flag::Priority.bit(), 0x20);
}
