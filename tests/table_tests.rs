use zellij_ipc_pty::table::{PtyError, ResizeAction, StdinAction, WindowsPtyBackend};

#[test]
fn next_terminal_id_starts_at_zero() {
    let backend = WindowsPtyBackend::new().expect("failed to create backend");
    let id = backend.next_terminal_id();
    assert_eq!(id, Some(0), "first terminal ID should be 0");
}

#[test]
fn next_terminal_id_increments_after_reserve() {
    let mut backend = WindowsPtyBackend::new().expect("failed to create backend");

    let id0 = backend.next_terminal_id().unwrap();
    backend.reserve_terminal_id(id0);

    let id1 = backend.next_terminal_id().unwrap();
    assert!(id1 > id0, "next ID ({}) should be greater than reserved ({})", id1, id0);

    backend.reserve_terminal_id(id1);

    let id2 = backend.next_terminal_id().unwrap();
    assert!(id2 > id1, "next ID ({}) should be greater than reserved ({})", id2, id1);
}

#[test]
fn clear_terminal_id_removes_entry() {
    let mut backend = WindowsPtyBackend::new().expect("failed to create backend");

    backend.reserve_terminal_id(0);
    backend.reserve_terminal_id(1);
    assert_eq!(backend.next_terminal_id(), Some(2));

    backend.clear_terminal_id(1);
    assert_eq!(backend.next_terminal_id(), Some(1));
}

#[test]
fn reserve_and_clear_all_returns_to_zero() {
    let mut backend = WindowsPtyBackend::new().expect("failed to create backend");

    backend.reserve_terminal_id(0);
    backend.reserve_terminal_id(1);
    backend.clear_terminal_id(0);
    backend.clear_terminal_id(1);

    assert_eq!(backend.next_terminal_id(), Some(0));
}

#[test]
fn next_id_follows_the_largest_id_not_the_count() {
    let mut backend = WindowsPtyBackend::new().unwrap();
    backend.reserve_terminal_id(7);
    backend.reserve_terminal_id(3);
    assert_eq!(backend.next_terminal_id(), Some(8));
    backend.clear_terminal_id(7);
    assert_eq!(backend.next_terminal_id(), Some(4));
    backend.clear_terminal_id(5);
    assert_eq!(backend.next_terminal_id(), Some(4));
}

#[test]
fn next_id_is_none_after_the_largest_id() {
    let mut backend = WindowsPtyBackend::new().unwrap();
    backend.reserve_terminal_id(u32::MAX);
    assert_eq!(backend.next_terminal_id(), None);
    backend.reserve_terminal_id(u32::MAX - 1);
    assert_eq!(backend.next_terminal_id(), None);
    backend.clear_terminal_id(u32::MAX);
    assert_eq!(backend.next_terminal_id(), Some(u32::MAX));
}

#[test]
fn reserve_twice_keeps_one_entry() {
    let mut backend = WindowsPtyBackend::new().unwrap();
    backend.reserve_terminal_id(2);
    backend.reserve_terminal_id(2);
    backend.clear_terminal_id(2);
    assert_eq!(backend.next_terminal_id(), Some(0));
}

#[test]
fn writer_is_taken_once() {
    let mut backend = WindowsPtyBackend::new().unwrap();
    backend.reserve_terminal_id(0);
    backend.mark_spawned(0, 4242);
    assert_eq!(backend.take_writer(0), Ok(()));
    assert_eq!(
        backend.take_writer(0),
        Err(PtyError::WriterUnavailable { terminal_id: 0 })
    );
}

#[test]
fn taking_a_writer_of_a_reserved_terminal_fails() {
    let mut backend = WindowsPtyBackend::new().unwrap();
    backend.reserve_terminal_id(5);
    assert_eq!(
        backend.take_writer(5),
        Err(PtyError::TerminalNotFound { terminal_id: 5 })
    );
}

#[test]
fn write_after_take_fails_for_every_buffer() {
    let mut backend = WindowsPtyBackend::new().unwrap();
    backend.mark_spawned(1, 10);
    assert_eq!(backend.plan_stdin_write(1, b"ls\r"), Ok(StdinAction::Write));
    assert_eq!(backend.plan_stdin_write(1, &[0x03]), Ok(StdinAction::Interrupt));
    assert_eq!(backend.plan_stdin_write(1, &[0x03, 0x03]), Ok(StdinAction::Write));
    backend.take_writer(1).unwrap();
    assert_eq!(
        backend.plan_stdin_write(1, b"ls\r"),
        Err(PtyError::WriterUnavailable { terminal_id: 1 })
    );
    assert_eq!(
        backend.plan_stdin_write(1, &[0x03]),
        Err(PtyError::WriterUnavailable { terminal_id: 1 })
    );
}

#[test]
fn write_after_clear_fails() {
    let mut backend = WindowsPtyBackend::new().unwrap();
    backend.mark_spawned(3, 99);
    backend.clear_terminal_id(3);
    assert_eq!(
        backend.plan_stdin_write(3, b"x"),
        Err(PtyError::TerminalNotFound { terminal_id: 3 })
    );
    assert_eq!(
        backend.plan_stdin_write(3, &[0x03]),
        Err(PtyError::TerminalNotFound { terminal_id: 3 })
    );
}

#[test]
fn write_to_reserved_terminal_fails() {
    let mut backend = WindowsPtyBackend::new().unwrap();
    backend.reserve_terminal_id(0);
    assert_eq!(
        backend.plan_stdin_write(0, b"x"),
        Err(PtyError::TerminalNotFound { terminal_id: 0 })
    );
}

#[test]
fn drain_without_writer_is_not_an_error() {
    let mut backend = WindowsPtyBackend::new().unwrap();
    backend.mark_spawned(0, 1);
    assert_eq!(backend.plan_drain(0), Ok(true));
    backend.take_writer(0).unwrap();
    assert_eq!(backend.plan_drain(0), Ok(false));
    assert_eq!(
        backend.plan_drain(9),
        Err(PtyError::TerminalNotFound { terminal_id: 9 })
    );
}

#[test]
fn resize_decisions() {
    let mut backend = WindowsPtyBackend::new().unwrap();
    backend.reserve_terminal_id(0);
    assert_eq!(backend.plan_resize(0, 120, 40), ResizeAction::Missing);
    backend.mark_spawned(0, 77);
    assert_eq!(
        backend.plan_resize(0, 120, 40),
        ResizeAction::Resize { cols: 120, rows: 40 }
    );
    assert_eq!(backend.plan_resize(0, 0, 40), ResizeAction::Ignore);
    assert_eq!(backend.plan_resize(0, 120, 0), ResizeAction::Ignore);
    assert_eq!(backend.plan_resize(8, 120, 40), ResizeAction::Missing);
}

#[test]
fn terminal_of_pid_finds_the_smallest_id() {
    let mut backend = WindowsPtyBackend::new().unwrap();
    backend.mark_spawned(9, 500);
    backend.mark_spawned(4, 500);
    backend.mark_spawned(2, 600);
    backend.reserve_terminal_id(1);
    assert_eq!(backend.terminal_of_pid(500), Some(4));
    assert_eq!(backend.terminal_of_pid(600), Some(2));
    assert_eq!(backend.terminal_of_pid(700), None);
    backend.clear_terminal_id(4);
    assert_eq!(backend.terminal_of_pid(500), Some(9));
}
