use neo4jrs::frame::{frame_message, unframe_message, Unframer, DEFAULT_CHUNK_CAPACITY};
use neo4jrs::errors::FrameError;

#[test]
fn frame_round_trip_default_capacity() {
    let msg: Vec<u8> = (0u16..300).map(|i| i as u8).collect();
    let framed = frame_message(&msg, DEFAULT_CHUNK_CAPACITY);
    let (back, end) = unframe_message(&framed, 0).unwrap();
    assert_eq!(back, msg);
    assert_eq!(end, framed.len());
}

#[test]
fn frame_round_trip_every_small_capacity() {
    let msg: Vec<u8> = (0u16..65).map(|i| (i * 7) as u8).collect();
    for cap in 1..=17 {
        let framed = frame_message(&msg, cap);
        let (back, end) = unframe_message(&framed, 0).unwrap();
        assert_eq!(back, msg, "capacity {cap}");
        assert_eq!(end, framed.len());
    }
}

#[test]
fn frame_empty_message_is_terminator_only() {
    let framed = frame_message(&vec![], DEFAULT_CHUNK_CAPACITY);
    assert_eq!(framed, vec![0, 0]);
    let (back, end) = unframe_message(&framed, 0).unwrap();
    assert!(back.is_empty());
    assert_eq!(end, 2);
}

#[test]
fn frame_golden_shape() {
    let msg = vec![1u8, 2, 3];
    let framed = frame_message(&msg, DEFAULT_CHUNK_CAPACITY);
    assert_eq!(framed, vec![0, 3, 1, 2, 3, 0, 0]);
    let framed2 = frame_message(&msg, 2);
    assert_eq!(framed2, vec![0, 2, 1, 2, 0, 1, 3, 0, 0]);
}

#[test]
fn unframe_rejects_truncated_chunk() {
    // The length prefix promises five bytes; only two follow.
    assert!(matches!(unframe_message(&vec![0, 5, 1, 2], 0), Err(FrameError::Truncated)));
}

#[test]
fn unframe_rejects_unterminated_stream() {
    assert!(matches!(unframe_message(&vec![0], 0), Err(FrameError::Unterminated)));
    // A complete chunk but no zero-length terminator.
    assert!(matches!(unframe_message(&vec![0, 2, 9, 9], 0), Err(FrameError::Unterminated)));
}

#[test]
fn unframer_handles_one_byte_reads() {
    let msg: Vec<u8> = (0u16..40).map(|i| i as u8).collect();
    let framed = frame_message(&msg, 7);
    let mut u = Unframer::new();
    let mut messages: Vec<Vec<u8>> = Vec::new();
    for b in &framed {
        u.feed(&[*b]);
        if let Some(m) = u.take_message() {
            messages.push(m);
        }
    }
    assert_eq!(messages, vec![msg]);
    assert!(u.pending.is_empty());
}

#[test]
fn unframer_handles_messages_split_arbitrarily() {
    let m1 = vec![1u8, 2, 3];
    let m2: Vec<u8> = (0u16..200).map(|i| i as u8).collect();
    let mut stream = frame_message(&m1, 2);
    stream.extend_from_slice(&frame_message(&m2, 50));
    for split in [1usize, 2, 3, 5, 8, 13, stream.len()] {
        let mut u = Unframer::new();
        let mut messages: Vec<Vec<u8>> = Vec::new();
        for chunk in stream.chunks(split) {
            u.feed(chunk);
            while let Some(m) = u.take_message() {
                messages.push(m);
            }
        }
        assert_eq!(messages, vec![m1.clone(), m2.clone()], "split {split}");
        assert!(u.pending.is_empty());
    }
}
