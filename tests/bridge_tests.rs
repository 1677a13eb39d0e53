use zellij_ipc_pty::bridge::{pump_action, PumpAction, ReadBridge, READ_CHUNK_SIZE};

#[test]
fn pump_forwards_reads_and_stops_on_end_or_error() {
    assert_eq!(pump_action(Some(12)), PumpAction::Forward { n: 12 });
    assert_eq!(pump_action(Some(0)), PumpAction::Stop);
    assert_eq!(pump_action(None), PumpAction::ForwardErrorAndStop);
    assert_eq!(READ_CHUNK_SIZE, 8192);
}

#[test]
fn chunk_larger_than_buffer_is_delivered_in_order() {
    let mut b = ReadBridge::new();
    assert_eq!(b.take_pending(4), None);
    assert_eq!(b.accept_chunk(b"abcdefghij", 4), b"abcd".to_vec());
    assert_eq!(b.take_pending(4), Some(b"efgh".to_vec()));
    assert_eq!(b.take_pending(4), Some(b"ij".to_vec()));
    assert_eq!(b.take_pending(4), None);
}

#[test]
fn small_chunk_is_delivered_whole() {
    let mut b = ReadBridge::new();
    assert_eq!(b.accept_chunk(b"hi", 4096), b"hi".to_vec());
    assert_eq!(b.take_pending(4096), None);
}

#[test]
fn closed_stream_drains_then_reads_empty() {
    let mut b = ReadBridge::new();
    b.accept_chunk(b"xyz", 1);
    assert_eq!(b.read_after_close(2), b"yz".to_vec());
    assert_eq!(b.read_after_close(2), Vec::<u8>::new());
    assert_eq!(b.read_after_close(2), Vec::<u8>::new());
}
