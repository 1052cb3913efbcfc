use deferred_logger::{
    parse_received_message, FrameReassembler, FramingError, InternedStringInfo, LogSection,
    ReassemblerState, Rgb, DEFAULT_CAPACITY,
};

fn stuffed(frame: &[u8]) -> Vec<u8> {
    let mut bytes = cobs::encode_vec(frame);
    assert!(!bytes.contains(&0));
    bytes.push(0);
    bytes
}

fn bytewise(reassembler: &mut FrameReassembler, stream: &[u8]) -> Vec<Result<Vec<u8>, FramingError>> {
    let mut events = Vec::new();
    for byte in stream {
        match reassembler.feed(*byte) {
            Ok(None) => {}
            Ok(Some(frame)) => events.push(Ok(frame)),
            Err(error) => events.push(Err(error)),
        }
    }
    events
}

#[test]
fn default_capacity() {
    assert_eq!(DEFAULT_CAPACITY, 4096);
}

#[test]
fn one_frame_byte_by_byte() {
    let frame = [0u8, 0, 0, 0, 0x2A, 0, 0, 0];
    let stream = stuffed(&frame);
    assert_ne!(&stream[..stream.len() - 1], &frame[..]);
    let mut reassembler = FrameReassembler::new(DEFAULT_CAPACITY);
    assert_eq!(reassembler.state(), ReassemblerState::Idle);
    for byte in &stream[..stream.len() - 1] {
        assert_eq!(reassembler.feed(*byte), Ok(None));
        assert_eq!(reassembler.state(), ReassemblerState::Accumulating);
    }
    assert_eq!(reassembler.feed(0), Ok(Some(frame.to_vec())));
    assert_eq!(reassembler.state(), ReassemblerState::Idle);
}

#[test]
fn frames_come_out_in_order() {
    let mut stream = stuffed(b"first");
    stream.extend(stuffed(&[1, 0, 2, 0, 0, 3]));
    stream.extend(stuffed(&[0xFF; 300]));
    stream.extend(stuffed(&[0]));
    let mut reassembler = FrameReassembler::new(DEFAULT_CAPACITY);
    assert_eq!(
        reassembler.push(&stream),
        vec![Ok(b"first".to_vec()), Ok(vec![1, 0, 2, 0, 0, 3]), Ok(vec![0xFF; 300]), Ok(vec![0])]
    );
    assert_eq!(reassembler.state(), ReassemblerState::Idle);
}

#[test]
fn chunking_does_not_matter() {
    let mut stream = stuffed(b"hello");
    stream.extend([7u8, 1, 2, 0]);
    stream.extend(stuffed(&[0, 0, 9, 0]));
    stream.extend([3u8; 40]);
    stream.push(0);
    stream.extend(stuffed(&[5; 10]));
    stream.extend([2u8, 1]);
    let mut whole = FrameReassembler::new(16);
    let expected = whole.push(&stream);
    assert_eq!(
        expected,
        vec![
            Ok(b"hello".to_vec()),
            Err(FramingError::Malformed(vec![7, 1, 2])),
            Ok(vec![0, 0, 9, 0]),
            Err(FramingError::Oversized(vec![3; 16])),
            Ok(vec![5; 10]),
        ]
    );
    let mut single = FrameReassembler::new(16);
    assert_eq!(bytewise(&mut single, &stream), expected);
    assert_eq!(single.state(), whole.state());
    for size in 1..stream.len() + 2 {
        let mut chunked = FrameReassembler::new(16);
        let mut events = Vec::new();
        for chunk in stream.chunks(size) {
            events.extend(chunked.push(chunk));
        }
        assert_eq!(events, expected);
        assert_eq!(chunked.state(), ReassemblerState::Accumulating);
    }
    for cut in 0..stream.len() + 1 {
        let mut chunked = FrameReassembler::new(16);
        let mut events = chunked.push(&stream[..cut]);
        events.extend(chunked.push(&[]));
        events.extend(chunked.push(&stream[cut..]));
        assert_eq!(events, expected);
    }
}

#[test]
fn oversized_frame_gives_one_error_and_the_stream_recovers() {
    let mut stream = vec![1u8; 20];
    stream.push(0);
    stream.extend(stuffed(b"next"));
    let mut reassembler = FrameReassembler::new(8);
    let mut failures = 0;
    for byte in &stream[..20] {
        assert_eq!(reassembler.feed(*byte), Ok(None));
    }
    assert_eq!(reassembler.state(), ReassemblerState::Overflowed);
    let mut frames = Vec::new();
    for byte in &stream[20..] {
        match reassembler.feed(*byte) {
            Ok(None) => {}
            Ok(Some(frame)) => frames.push(frame),
            Err(error) => {
                assert_eq!(error, FramingError::Oversized(vec![1; 8]));
                assert_eq!(error.consumed(), 8);
                assert_eq!(reassembler.state(), ReassemblerState::Idle);
                failures += 1;
            }
        }
    }
    assert_eq!(failures, 1);
    assert_eq!(frames, vec![b"next".to_vec()]);
}

#[test]
fn capacity_is_the_largest_stuffed_frame() {
    let frame = [9u8; 7];
    let stream = stuffed(&frame);
    assert_eq!(stream.len(), 9);
    let mut fits = FrameReassembler::new(8);
    assert_eq!(fits.push(&stream), vec![Ok(frame.to_vec())]);
    let mut tight = FrameReassembler::new(7);
    assert_eq!(
        tight.push(&stream),
        vec![Err(FramingError::Oversized(vec![8, 9, 9, 9, 9, 9, 9]))]
    );
    let mut none = FrameReassembler::new(0);
    assert_eq!(none.feed(0), Ok(None));
    assert_eq!(none.feed(1), Ok(None));
    assert_eq!(none.state(), ReassemblerState::Overflowed);
    assert_eq!(none.feed(0), Err(FramingError::Oversized(vec![])));
    assert_eq!(none.state(), ReassemblerState::Idle);
}

#[test]
fn malformed_frame_is_reported_and_dropped() {
    let mut reassembler = FrameReassembler::new(DEFAULT_CAPACITY);
    assert_eq!(
        reassembler.push(&[5, 1, 2, 0]),
        vec![Err(FramingError::Malformed(vec![5, 1, 2]))]
    );
    assert_eq!(FramingError::Malformed(vec![5, 1, 2]).consumed(), 3);
    assert_eq!(reassembler.state(), ReassemblerState::Idle);
    assert_eq!(reassembler.push(&stuffed(b"ok")), vec![Ok(b"ok".to_vec())]);
    assert_eq!(
        reassembler.push(&[0xFF, 1, 0]),
        vec![Err(FramingError::Malformed(vec![0xFF, 1]))]
    );
}

#[test]
fn delimiters_between_frames_give_nothing() {
    let mut reassembler = FrameReassembler::new(DEFAULT_CAPACITY);
    assert_eq!(reassembler.feed(0), Ok(None));
    assert_eq!(reassembler.feed(0), Ok(None));
    assert_eq!(reassembler.state(), ReassemblerState::Idle);
    assert_eq!(reassembler.push(&[0, 0, 0]), vec![]);
    let mut stream = vec![0u8, 0];
    stream.extend(stuffed(b"a"));
    stream.push(0);
    stream.extend(stuffed(b"b"));
    assert_eq!(reassembler.push(&stream), vec![Ok(b"a".to_vec()), Ok(b"b".to_vec())]);
}

#[test]
fn partial_frame_gives_nothing() {
    let mut reassembler = FrameReassembler::new(DEFAULT_CAPACITY);
    let stream = stuffed(b"partial");
    assert_eq!(reassembler.push(&stream[..stream.len() - 1]), vec![]);
    assert_eq!(reassembler.state(), ReassemblerState::Accumulating);
    assert_eq!(reassembler.push(&[]), vec![]);
    assert_eq!(reassembler.push(&[0]), vec![Ok(b"partial".to_vec())]);
}

#[test]
fn stream_to_entries() {
    let table = InternedStringInfo {
        strings: b"hello %d\0bad %z\0bye %s\0".to_vec(),
        log_sections: vec![
            LogSection { label: "Info".to_string(), color: Rgb(255, 255, 0), start: 0, end: 9 },
            LogSection { label: "Debug".to_string(), color: Rgb(0, 255, 0), start: 9, end: 23 },
        ],
    };
    let mut stream = stuffed(&[0, 0, 0, 0, 0x2A, 0, 0, 0]);
    stream.extend(stuffed(&[9, 0, 0, 0]));
    stream.extend([4u8, 1, 0]);
    stream.extend(stuffed(&[16, 0, 0, 0, b'o', b'k', 0]));
    let mut reassembler = FrameReassembler::new(DEFAULT_CAPACITY);
    let mut lines = Vec::new();
    for byte in stream {
        match reassembler.feed(byte) {
            Ok(Some(frame)) => match parse_received_message(&table, &frame) {
                Ok(entry) => lines.push(format!("{}: {}", entry.label, entry.message)),
                Err(error) => lines.push(format!("{:?}", error)),
            },
            Ok(None) => {}
            Err(error) => lines.push(format!("{:?}", error)),
        }
    }
    assert_eq!(
        lines,
        vec![
            "Info: hello 42".to_string(),
            "UnknownFormatSpecifier(\"%z\")".to_string(),
            "Malformed([4, 1])".to_string(),
            "Debug: bye ok".to_string(),
        ]
    );
}
