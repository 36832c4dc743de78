use cyberark_rdp::sia::chunked::{
    encode_chunk, ByteInput, ChunkError, ChunkPhase, ChunkedState, DataInput, GatewayReadState,
    ReadOutcome, ReadStep,
};

/// Runs one read of the decoded stream against raw channel bytes.
fn read_once(state: &mut GatewayReadState, src: &mut &[u8], capacity: usize) -> (ReadOutcome, Vec<u8>) {
    let (mut call, mut step) = state.begin_read(capacity);
    loop {
        match step {
            ReadStep::Done(outcome) => return (outcome, call.data().clone()),
            ReadStep::Continue => step = state.step(&mut call),
            ReadStep::NeedByte => {
                let input = if src.is_empty() {
                    ByteInput::Eof
                } else {
                    let b = src[0];
                    *src = &src[1..];
                    ByteInput::Byte(b)
                };
                step = state.on_byte(&mut call, input);
            }
            ReadStep::NeedData(k) => {
                let n = k.min(src.len());
                let bytes = src[..n].to_vec();
                *src = &src[n..];
                step = state.on_data(&mut call, DataInput::Bytes(bytes));
            }
        }
    }
}

#[test]
fn encode_chunk_frames_data() {
    assert_eq!(encode_chunk(b"hello"), b"5\r\nhello\r\n".to_vec());
    let big = vec![7u8; 300];
    let framed = encode_chunk(&big);
    assert_eq!(&framed[0..5], b"12C\r\n");
    assert_eq!(framed.len(), 5 + 300 + 2);
}

#[test]
fn chunks_decode_to_their_data() {
    let mut raw = encode_chunk(b"hello");
    raw.extend(encode_chunk(b" world"));
    raw.extend_from_slice(b"0\r\n");
    let mut src: &[u8] = &raw;
    let mut state = GatewayReadState::new(b"seedseed10".to_vec());
    assert_eq!(read_once(&mut state, &mut src, 100), (ReadOutcome::Read(5), b"hello".to_vec()));
    assert_eq!(read_once(&mut state, &mut src, 100), (ReadOutcome::Read(6), b" world".to_vec()));
    assert_eq!(read_once(&mut state, &mut src, 100), (ReadOutcome::Read(0), Vec::new()));
    assert_eq!(read_once(&mut state, &mut src, 100), (ReadOutcome::Read(0), Vec::new()));
}

#[test]
fn small_buffers_split_chunks() {
    let raw = encode_chunk(b"hello");
    let mut src: &[u8] = &raw;
    let mut state = GatewayReadState::new(Vec::new());
    assert_eq!(read_once(&mut state, &mut src, 3), (ReadOutcome::Read(3), b"hel".to_vec()));
    assert_eq!(read_once(&mut state, &mut src, 3), (ReadOutcome::Read(2), b"lo".to_vec()));
}

#[test]
fn malformed_size_line() {
    let mut src: &[u8] = b"zz\r\n";
    let mut state = GatewayReadState::new(Vec::new());
    assert_eq!(read_once(&mut state, &mut src, 10).0, ReadOutcome::Failed(ChunkError::InvalidChunkSize));
    let long = [b'1'; 30];
    let mut src: &[u8] = &long;
    let mut state = GatewayReadState::new(Vec::new());
    assert_eq!(read_once(&mut state, &mut src, 10).0, ReadOutcome::Failed(ChunkError::HeaderTooLong));
}

#[test]
fn stream_ending_inside_data() {
    let mut src: &[u8] = b"5\r\nhe";
    let mut state = GatewayReadState::new(Vec::new());
    assert_eq!(read_once(&mut state, &mut src, 10), (ReadOutcome::Read(2), b"he".to_vec()));
    assert_eq!(read_once(&mut state, &mut src, 10).0, ReadOutcome::Failed(ChunkError::EofInData));
}

#[test]
fn decoder_phases() {
    let mut cs = ChunkedState::new();
    assert_eq!(cs.phase(), ChunkPhase::LengthHeader);
    for b in b"3\r\n" {
        cs.header_byte(*b);
    }
    assert_eq!(cs.phase(), ChunkPhase::Data);
    assert_eq!(cs.remaining_in_chunk(), 3);
    cs.data_consumed(3);
    assert_eq!(cs.phase(), ChunkPhase::Footer);
    cs.footer_byte();
    cs.footer_byte();
    assert_eq!(cs.phase(), ChunkPhase::LengthHeader);
}

/// Runs one read against bytes that have arrived so far; nothing more has arrived yet.
fn read_available(state: &mut GatewayReadState, src: &mut &[u8], capacity: usize) -> (ReadOutcome, Vec<u8>) {
    let (mut call, mut step) = state.begin_read(capacity);
    loop {
        match step {
            ReadStep::Done(outcome) => return (outcome, call.data().clone()),
            ReadStep::Continue => step = state.step(&mut call),
            ReadStep::NeedByte => {
                let input = if src.is_empty() {
                    ByteInput::WouldBlock
                } else {
                    let b = src[0];
                    *src = &src[1..];
                    ByteInput::Byte(b)
                };
                step = state.on_byte(&mut call, input);
            }
            ReadStep::NeedData(k) => {
                let input = if src.is_empty() {
                    DataInput::WouldBlock
                } else {
                    let n = k.min(src.len());
                    let bytes = src[..n].to_vec();
                    *src = &src[n..];
                    DataInput::Bytes(bytes)
                };
                step = state.on_data(&mut call, input);
            }
        }
    }
}

#[test]
fn stream_split_across_reads_decodes_the_same() {
    let mut state = GatewayReadState::new(Vec::new());
    let mut first: &[u8] = b"5\r\nhel";
    assert_eq!(read_available(&mut state, &mut first, 100), (ReadOutcome::Read(3), b"hel".to_vec()));
    assert!(first.is_empty());
    let mut second: &[u8] = b"lo\r\n3\r\n";
    assert_eq!(read_available(&mut state, &mut second, 100), (ReadOutcome::Read(2), b"lo".to_vec()));
    assert_eq!(second, b"3\r\n");
    let mut rest = second.to_vec();
    rest.extend_from_slice(b"abc\r\n0\r\n");
    let mut third: &[u8] = &rest;
    assert_eq!(read_available(&mut state, &mut third, 100), (ReadOutcome::Read(3), b"abc".to_vec()));
    assert_eq!(read_available(&mut state, &mut third, 100), (ReadOutcome::Read(0), Vec::new()));
}

#[test]
fn nothing_arrived_yet_is_not_end_of_stream() {
    let mut state = GatewayReadState::new(Vec::new());
    let mut nothing: &[u8] = &[];
    assert_eq!(read_available(&mut state, &mut nothing, 10), (ReadOutcome::WouldBlock, Vec::new()));
    let mut partial: &[u8] = b"3\r\n";
    assert_eq!(read_available(&mut state, &mut partial, 10), (ReadOutcome::WouldBlock, Vec::new()));
    let mut data: &[u8] = b"abc\r\n";
    assert_eq!(read_available(&mut state, &mut data, 10), (ReadOutcome::Read(3), b"abc".to_vec()));
}

#[test]
fn empty_buffer_reads_nothing() {
    let mut state = GatewayReadState::new(Vec::new());
    let mut src: &[u8] = b"3\r\nabc\r\n";
    assert_eq!(read_once(&mut state, &mut src, 0).0, ReadOutcome::Read(0));
}
