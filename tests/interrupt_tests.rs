use zellij_ipc_pty::interrupt::{
    break_sequence, find_descendants, plan_interrupt, plan_signal_interrupt, INTERRUPT_BYTE,
};

fn sorted(mut v: Vec<u32>) -> Vec<u32> {
    v.sort();
    v
}

#[test]
fn descendants_are_exactly_the_subtree_without_the_root() {
    // 100 is the shell; 200 and 300 its children; 400 a grandchild via 300;
    // 900 belongs to another tree.
    let procs = vec![(1, 0), (100, 1), (200, 100), (300, 100), (400, 300), (900, 1), (950, 900)];
    let desc = find_descendants(&procs, 100);
    assert_eq!(sorted(desc.clone()), vec![200, 300, 400]);
    assert!(!desc.contains(&100));
    let pos = |p: u32| desc.iter().position(|&x| x == p).unwrap();
    assert!(pos(300) < pos(400));
}

#[test]
fn no_descendants_for_a_leaf() {
    let procs = vec![(1, 0), (100, 1)];
    assert!(find_descendants(&procs, 100).is_empty());
}

#[test]
fn a_parent_cycle_still_terminates() {
    let procs = vec![(10, 5), (20, 10), (10, 20), (5, 20)];
    let desc = find_descendants(&procs, 5);
    assert_eq!(sorted(desc), vec![10, 20]);
}

#[test]
fn user_interrupt_with_descendants_terminates_deepest_first() {
    let procs = vec![(100, 1), (200, 100), (300, 200)];
    let desc = find_descendants(&procs, 100);
    let plan = plan_interrupt(true, &desc);
    assert!(plan.write_byte);
    assert!(!plan.send_break);
    assert_eq!(plan.terminate, vec![300, 200]);
}

#[test]
fn user_interrupt_without_descendants_sends_break() {
    let plan = plan_interrupt(true, &Vec::new());
    assert!(plan.write_byte);
    assert!(plan.send_break);
    assert!(plan.terminate.is_empty());
}

#[test]
fn signal_interrupt_skips_the_byte() {
    let plan = plan_signal_interrupt(&vec![5, 6]);
    assert!(!plan.write_byte);
    assert!(!plan.send_break);
    assert_eq!(plan.terminate, vec![6, 5]);
}

#[test]
fn break_sequence_is_press_then_release() {
    let mut expected = b"\x1b[3;70;0;1;8;1_".to_vec();
    expected.extend_from_slice(b"\x1b[3;70;0;0;8;1_");
    assert_eq!(break_sequence(), expected);
    assert_eq!(INTERRUPT_BYTE, 3);
}
