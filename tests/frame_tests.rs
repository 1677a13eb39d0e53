use zellij_ipc_pty::frame::{encode_frame, FrameDecoder, FrameError, MAX_IPC_MSG_SIZE};

#[test]
fn encode_writes_little_endian_length_then_payload() {
    assert_eq!(encode_frame(b"abc"), vec![3, 0, 0, 0, b'a', b'b', b'c']);
    assert_eq!(encode_frame(&[]), vec![0, 0, 0, 0]);
    let big = vec![7u8; 0x0102];
    let framed = encode_frame(&big);
    assert_eq!(&framed[..4], &[0x02, 0x01, 0, 0]);
    assert_eq!(framed.len(), 4 + 0x0102);
}

#[test]
fn round_trip_restores_the_payload() {
    let payload: Vec<u8> = (0..1000u32).map(|i| (i % 251) as u8).collect();
    let mut dec = FrameDecoder::new();
    dec.push(&encode_frame(&payload));
    assert_eq!(dec.next_frame(), Ok(Some(payload)));
    assert!(dec.is_empty());
}

#[test]
fn empty_payload_round_trips() {
    let mut dec = FrameDecoder::new();
    dec.push(&encode_frame(&[]));
    assert_eq!(dec.next_frame(), Ok(Some(Vec::new())));
    assert_eq!(dec.next_frame(), Ok(None));
}

#[test]
fn one_message_then_none_after_close() {
    let mut dec = FrameDecoder::new();
    dec.push(&encode_frame(b"ConnStatus"));
    assert_eq!(dec.next_frame(), Ok(Some(b"ConnStatus".to_vec())));
    assert_eq!(dec.next_frame(), Ok(None));
    assert!(dec.is_empty());
}

#[test]
fn frames_arrive_in_send_order_across_pieces() {
    let mut stream = encode_frame(b"first");
    stream.extend(encode_frame(b"second"));
    stream.extend(encode_frame(b"third"));
    let mut dec = FrameDecoder::new();
    let mut got = Vec::new();
    for piece in stream.chunks(3) {
        dec.push(piece);
        while let Ok(Some(p)) = dec.next_frame() {
            got.push(p);
        }
    }
    assert_eq!(got, vec![b"first".to_vec(), b"second".to_vec(), b"third".to_vec()]);
}

#[test]
fn partial_header_and_partial_payload_wait() {
    let mut dec = FrameDecoder::new();
    dec.push(&[5, 0]);
    assert_eq!(dec.next_frame(), Ok(None));
    dec.push(&[0, 0, b'h', b'e']);
    assert_eq!(dec.next_frame(), Ok(None));
    dec.push(b"llo");
    assert_eq!(dec.next_frame(), Ok(Some(b"hello".to_vec())));
}

#[test]
fn oversized_header_is_refused_before_the_payload() {
    let len = (MAX_IPC_MSG_SIZE + 1) as u32;
    let mut dec = FrameDecoder::new();
    dec.push(&len.to_le_bytes());
    assert_eq!(dec.next_frame(), Err(FrameError::TooLarge { len }));
    assert!(dec.is_empty());
}

#[test]
fn largest_allowed_header_waits_for_its_payload() {
    let len = MAX_IPC_MSG_SIZE as u32;
    let mut dec = FrameDecoder::new();
    dec.push(&len.to_le_bytes());
    assert_eq!(dec.next_frame(), Ok(None));
    assert!(!dec.is_empty());
}

#[test]
fn decoding_continues_after_a_refused_header() {
    let mut dec = FrameDecoder::new();
    dec.push(&u32::MAX.to_le_bytes());
    dec.push(&encode_frame(b"ok"));
    assert_eq!(dec.next_frame(), Err(FrameError::TooLarge { len: u32::MAX }));
    assert_eq!(dec.next_frame(), Ok(Some(b"ok".to_vec())));
}
