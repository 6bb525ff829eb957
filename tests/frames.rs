use ndgr_client::protobuf_stream_reader::{FrameError, ProtobufStreamReader};

fn varint(mut n: usize) -> Vec<u8> {
    let mut out = Vec::new();
    loop {
        let low = (n % 128) as u8;
        n /= 128;
        if n == 0 {
            out.push(low);
            return out;
        }
        out.push(low | 0x80);
    }
}

fn frame(payload: &[u8]) -> Vec<u8> {
    let mut out = varint(payload.len());
    out.extend_from_slice(payload);
    out
}

fn payloads() -> Vec<Vec<u8>> {
    vec![b"hello".to_vec(), vec![], vec![7u8; 300], b"x".to_vec()]
}

fn stream_of(ps: &[Vec<u8>]) -> Vec<u8> {
    ps.iter().flat_map(|p| frame(p)).collect()
}

fn decode_in_chunks(bytes: &[u8], chunk: usize) -> Vec<Vec<u8>> {
    let mut reader = ProtobufStreamReader::default();
    let mut out = Vec::new();
    for c in bytes.chunks(chunk) {
        reader.push_chunk(c);
        while let Ok(Some(m)) = reader.get_message() {
            out.push(m.to_vec());
        }
    }
    out
}

#[test]
fn frames_all_at_once() {
    let ps = payloads();
    let bytes = stream_of(&ps);
    assert_eq!(decode_in_chunks(&bytes, bytes.len()), ps);
}

#[test]
fn frames_one_byte_at_a_time() {
    let ps = payloads();
    let bytes = stream_of(&ps);
    assert_eq!(decode_in_chunks(&bytes, 1), ps);
}

#[test]
fn frames_in_uneven_chunks() {
    let ps = payloads();
    let bytes = stream_of(&ps);
    for n in [2usize, 3, 7, 100] {
        assert_eq!(decode_in_chunks(&bytes, n), ps);
    }
}

#[test]
fn split_inside_length_prefix() {
    let payload = vec![1u8; 200];
    let bytes = frame(&payload);
    let mut reader = ProtobufStreamReader::default();
    reader.push_chunk(&bytes[..1]);
    assert!(matches!(reader.get_message(), Ok(None)));
    assert_eq!(reader.buffer.len(), 1);
    reader.push_chunk(&bytes[1..]);
    let m = reader.get_message().ok().flatten().unwrap();
    assert_eq!(&m[..], &payload[..]);
    assert_eq!(reader.buffer.len(), 0);
}

#[test]
fn split_inside_payload() {
    let bytes = frame(b"abcdef");
    let mut reader = ProtobufStreamReader::default();
    reader.push_chunk(&bytes[..4]);
    assert!(matches!(reader.get_message(), Ok(None)));
    assert_eq!(&reader.buffer[..], &bytes[..4]);
    reader.push_chunk(&bytes[4..]);
    let m = reader.get_message().ok().flatten().unwrap();
    assert_eq!(&m[..], b"abcdef");
}

#[test]
fn empty_push_yields_nothing_and_keeps_buffer() {
    let mut reader = ProtobufStreamReader::default();
    reader.push_chunk(&[]);
    assert!(matches!(reader.get_message(), Ok(None)));
    assert_eq!(reader.buffer.len(), 0);
    reader.push_chunk(&[0x85, 0x01, 9]);
    reader.push_chunk(&[]);
    assert!(matches!(reader.get_message(), Ok(None)));
    assert_eq!(&reader.buffer[..], &[0x85, 0x01, 9]);
}

#[test]
fn round_trip_boundary_lengths() {
    for len in [0usize, 1, 127, 128, 16384] {
        let payload: Vec<u8> = (0..len).map(|i| (i % 251) as u8).collect();
        let bytes = frame(&payload);
        let expected_prefix = match len {
            0 | 1 | 127 => 1,
            128 => 2,
            _ => 3,
        };
        assert_eq!(bytes.len(), expected_prefix + len);
        let mut reader = ProtobufStreamReader::default();
        reader.push_chunk(&bytes);
        let m = reader.get_message().ok().flatten().unwrap();
        assert_eq!(&m[..], &payload[..]);
        assert_eq!(reader.buffer.len(), 0);
    }
}

#[test]
fn corrupt_frame_does_not_hide_its_neighbours() {
    let garbage = vec![0xFFu8, 0xFF, 0x00, 0x13];
    let ps = vec![b"first".to_vec(), garbage.clone(), b"last".to_vec()];
    let bytes = stream_of(&ps);
    let mut reader = ProtobufStreamReader::default();
    reader.push_chunk(&bytes);
    let drained = reader.drain_frames();
    assert!(!drained.malformed);
    let got: Vec<Vec<u8>> = drained.frames.iter().map(|b| b.to_vec()).collect();
    assert_eq!(got, ps);
    assert_eq!(reader.buffer.len(), 0);
}

#[test]
fn drain_stops_at_incomplete_frame() {
    let mut bytes = stream_of(&[b"ab".to_vec(), b"cd".to_vec()]);
    bytes.extend_from_slice(&[5, 1, 2]);
    let mut reader = ProtobufStreamReader::default();
    reader.push_chunk(&bytes);
    let drained = reader.drain_frames();
    assert!(!drained.malformed);
    assert_eq!(drained.frames.len(), 2);
    assert_eq!(&drained.frames[1][..], b"cd");
    assert_eq!(&reader.buffer[..], &[5, 1, 2]);
}

#[test]
fn overlong_prefix_is_an_error_and_keeps_buffer() {
    let bytes = [0x80u8; 10];
    let mut reader = ProtobufStreamReader::default();
    reader.push_chunk(&bytes[..9]);
    assert!(matches!(reader.get_message(), Ok(None)));
    reader.push_chunk(&bytes[9..]);
    assert!(matches!(reader.get_message(), Err(FrameError::PrefixTooLong)));
    assert_eq!(reader.buffer.len(), 10);
    let drained = reader.drain_frames();
    assert!(drained.malformed);
    assert!(drained.frames.is_empty());
}

#[test]
fn widest_prefix_is_accepted() {
    // nine continuation bytes then a final zero byte: the value is zero
    let mut bytes = vec![0x80u8; 9];
    bytes.push(0);
    bytes.push(42);
    let mut reader = ProtobufStreamReader::default();
    reader.push_chunk(&bytes);
    let m = reader.get_message().ok().flatten().unwrap();
    assert!(m.is_empty());
    assert_eq!(&reader.buffer[..], &[42]);
}
