use zellij_ipc_pty::frame::{encode_frame, FrameDecoder, FrameError};
use zellij_ipc_pty::probe::{probe_verdict, resize_poll_step, select_candidates};

#[test]
fn directory_with_one_socket_and_one_file_yields_one_candidate() {
    let entries = vec![("test-session".to_string(), true), ("not-a-session".to_string(), false)];
    assert_eq!(select_candidates(&entries), vec!["test-session".to_string()]);
}

#[test]
fn candidates_keep_directory_order() {
    let entries = vec![
        ("b".to_string(), true),
        ("x".to_string(), false),
        ("a".to_string(), true),
    ];
    assert_eq!(select_candidates(&entries), vec!["b".to_string(), "a".to_string()]);
    assert!(select_candidates(&Vec::new()).is_empty());
}

#[test]
fn live_reply_is_accepted() {
    let mut dec = FrameDecoder::new();
    dec.push(&encode_frame(b"Connected"));
    let reply = dec.next_frame();
    assert!(probe_verdict(&reply, b"Connected"));
}

#[test]
fn wrong_missing_or_refused_reply_is_rejected() {
    assert!(!probe_verdict(&Ok(Some(b"Render".to_vec())), b"Connected"));
    assert!(!probe_verdict(&Ok(None), b"Connected"));
    assert!(!probe_verdict(&Err(FrameError::TooLarge { len: u32::MAX }), b"Connected"));
}

#[test]
fn resize_poll_emits_on_change_only() {
    assert_eq!(resize_poll_step((80, 24), Some((80, 24))), ((80, 24), false));
    assert_eq!(resize_poll_step((80, 24), Some((100, 30))), ((100, 30), true));
    assert_eq!(resize_poll_step((80, 24), None), ((80, 24), false));
}
