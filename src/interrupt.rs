//! The interrupt policy: which processes an interrupt terminates, in which
//! order, and which bytes it writes to the pty.
use vstd::prelude::*;

verus! {

/// `x` is the pid of a process listed in `procs`, a snapshot of
/// `(pid, parent pid)` pairs.
pub open spec fn listed(procs: Seq<(u32, u32)>, x: u32) -> bool {
    exists|j: int| 0 <= j < procs.len() && (#[trigger] procs[j]).0 == x
}

/// `x` is listed with `parent` as its parent.
pub open spec fn child_of(procs: Seq<(u32, u32)>, x: u32, parent: u32) -> bool {
    exists|j: int| 0 <= j < procs.len() && procs[j] == (x, parent)
}

/// `x` is listed with a parent that is `root` or one of `earlier`.
pub open spec fn parent_found(procs: Seq<(u32, u32)>, root: u32, earlier: Seq<u32>, x: u32) -> bool {
    exists|j: int|
        0 <= j < procs.len() && (#[trigger] procs[j]).0 == x && (procs[j].1 == root
            || earlier.contains(procs[j].1))
}

/// `r` lists the descendants of `root` in the snapshot `procs`: each once,
/// never `root`, each after a parent of it (or with `root` as parent), and
/// every process whose parent is `root` or listed is listed itself.
pub open spec fn is_descendant_list(procs: Seq<(u32, u32)>, root: u32, r: Seq<u32>) -> bool {
    &&& r.no_duplicates()
    &&& !r.contains(root)
    &&& forall|i: int| 0 <= i < r.len() ==> parent_found(procs, root, r.subrange(0, i), #[trigger] r[i])
    &&& forall|j: int|
        0 <= j < procs.len() && ((#[trigger] procs[j]).1 == root || r.contains(procs[j].1))
            && procs[j].0 != root ==> r.contains(procs[j].0)
}

/// The order in which descendants are terminated: the reverse of the order
/// they were found in, so that every process goes before its ancestors.
pub open spec fn termination_order(desc: Seq<u32>) -> Seq<u32> {
    desc.reverse()
}

proof fn lemma_distinct_bound(r: Seq<u32>, procs: Seq<(u32, u32)>)
    requires
        r.no_duplicates(),
        forall|i: int| 0 <= i < r.len() ==> listed(procs, #[trigger] r[i]),
    ensures
        r.len() <= procs.len(),
{
    let pids = procs.map_values(|e: (u32, u32)| e.0);
    r.unique_seq_to_set();
    pids.lemma_cardinality_of_set();
    assert forall|x: u32| r.to_set().contains(x) implies pids.to_set().contains(x) by {
        let i = choose|i: int| 0 <= i < r.len() && r[i] == x;
        assert(listed(procs, r[i]));
        let j = choose|j: int| 0 <= j < procs.len() && (#[trigger] procs[j]).0 == x;
        assert(pids[j] == x);
    }
    vstd::set_lib::lemma_len_subset(r.to_set(), pids.to_set());
}

fn contains_pid(v: &Vec<u32>, x: u32) -> (r: bool)
    ensures
        r == v@.contains(x),
{
    let mut i: usize = 0;
    while i < v.len()
        invariant
            i <= v@.len(),
            forall|j: int| 0 <= j < i ==> v@[j] != x,
        decreases v@.len() - i,
    {
        if v[i] == x {
            return true;
        }
        i = i + 1;
    }
    false
}

/// Appends to `desc` each process of `procs` whose parent is `parent`, other
/// than `root` and those already in `desc`.
fn add_children(procs: &Vec<(u32, u32)>, parent: u32, root: u32, desc: &mut Vec<u32>)
    requires
        old(desc)@.no_duplicates(),
        !old(desc)@.contains(root),
    ensures
        final(desc)@.len() >= old(desc)@.len(),
        final(desc)@.subrange(0, old(desc)@.len() as int) == old(desc)@,
        final(desc)@.no_duplicates(),
        !final(desc)@.contains(root),
        forall|i: int|
            old(desc)@.len() <= i < final(desc)@.len() ==> child_of(
                procs@,
                #[trigger] final(desc)@[i],
                parent,
            ),
        forall|j: int|
            0 <= j < procs@.len() && (#[trigger] procs@[j]).1 == parent && procs@[j].0 != root
                ==> final(desc)@.contains(procs@[j].0),
{
    let ghost start = desc@;
    let mut j: usize = 0;
    while j < procs.len()
        invariant
            j <= procs@.len(),
            desc@.len() >= start.len(),
            desc@.subrange(0, start.len() as int) == start,
            desc@.no_duplicates(),
            !desc@.contains(root),
            forall|i: int|
                start.len() <= i < desc@.len() ==> child_of(procs@, #[trigger] desc@[i], parent),
            forall|m: int|
                0 <= m < j && (#[trigger] procs@[m]).1 == parent && procs@[m].0 != root
                    ==> desc@.contains(procs@[m].0),
        decreases procs@.len() - j,
    {
        let (pid, ppid) = procs[j];
        if ppid == parent && pid != root && !contains_pid(desc, pid) {
            let ghost before = desc@;
            desc.push(pid);
            proof {
                assert(desc@.subrange(0, start.len() as int) =~= start) by {
                    assert(before.subrange(0, start.len() as int) == start);
                }
                assert forall|a: int, b: int|
                    0 <= a < desc@.len() && 0 <= b < desc@.len() && a != b implies desc@[a]
                    != desc@[b] by {
                    if a < before.len() && b < before.len() {
                        assert(desc@[a] == before[a] && desc@[b] == before[b]);
                    } else if a < before.len() {
                        assert(before.contains(desc@[a]));
                    } else {
                        assert(before.contains(desc@[b]));
                    }
                }
                assert forall|x: u32| before.contains(x) implies #[trigger] desc@.contains(x) by {
                    {
                        let i = choose|i: int| 0 <= i < before.len() && before[i] == x;
                        assert(desc@[i] == x);
                    }
                }
                assert(!desc@.contains(root)) by {
                    if desc@.contains(root) {
                        let i = choose|i: int| 0 <= i < desc@.len() && desc@[i] == root;
                        if i < before.len() {
                            assert(before[i] == root);
                        }
                    }
                }
                assert(desc@[before.len() as int] == pid);
                assert(procs@[j as int] == (pid, ppid));
                assert forall|i: int| start.len() <= i < desc@.len() implies child_of(
                    procs@,
                    #[trigger] desc@[i],
                    parent,
                ) by {
                    if i < before.len() {
                        assert(desc@[i] == before[i]);
                    } else {
                        assert(procs@[j as int] == (desc@[i], parent));
                    }
                }
            }
        }
        j = j + 1;
    }
}

/// The descendants of `root` in the snapshot `procs` of `(pid, parent pid)`
/// pairs, each after one of its parents.
pub fn find_descendants(procs: &Vec<(u32, u32)>, root: u32) -> (r: Vec<u32>)
    ensures
        is_descendant_list(procs@, root, r@),
{
    let mut desc: Vec<u32> = Vec::new();
    add_children(procs, root, root, &mut desc);
    proof {
        assert forall|i: int| 0 <= i < desc@.len() implies parent_found(
            procs@,
            root,
            desc@.subrange(0, i),
            #[trigger] desc@[i],
        ) by {
            assert(child_of(procs@, desc@[i], root));
            let m = choose|m: int| 0 <= m < procs@.len() && procs@[m] == (desc@[i], root);
            assert(procs@[m].0 == desc@[i]);
        }
    }
    let mut k: usize = 0;
    while k < desc.len()
        invariant
            k <= desc@.len(),
            desc@.no_duplicates(),
            !desc@.contains(root),
            forall|i: int|
                0 <= i < desc@.len() ==> parent_found(
                    procs@,
                    root,
                    desc@.subrange(0, i),
                    #[trigger] desc@[i],
                ),
            forall|j: int|
                0 <= j < procs@.len() && ((#[trigger] procs@[j]).1 == root || desc@.subrange(
                    0,
                    k as int,
                ).contains(procs@[j].1)) && procs@[j].0 != root ==> desc@.contains(procs@[j].0),
        decreases procs@.len() - k,
    {
        proof {
            assert forall|i: int| 0 <= i < desc@.len() implies listed(procs@, #[trigger] desc@[i]) by {
                assert(parent_found(procs@, root, desc@.subrange(0, i), desc@[i]));
            }
            lemma_distinct_bound(desc@, procs@);
        }
        let p = desc[k];
        let ghost before = desc@;
        add_children(procs, p, root, &mut desc);
        proof {
            assert forall|x: u32| before.contains(x) implies #[trigger] desc@.contains(x) by {
                {
                    let i = choose|i: int| 0 <= i < before.len() && before[i] == x;
                    assert(desc@.subrange(0, before.len() as int)[i] == x);
                }
            }
            assert forall|i: int| 0 <= i < desc@.len() implies parent_found(
                procs@,
                root,
                desc@.subrange(0, i),
                #[trigger] desc@[i],
            ) by {
                if i < before.len() {
                    assert(desc@.subrange(0, i) =~= before.subrange(0, i));
                    assert(desc@[i] == desc@.subrange(0, before.len() as int)[i]);
                    assert(parent_found(procs@, root, before.subrange(0, i), before[i]));
                } else {
                    assert(child_of(procs@, desc@[i], p));
                    let m = choose|m: int| 0 <= m < procs@.len() && procs@[m] == (desc@[i], p);
                    assert(procs@[m].0 == desc@[i]);
                    assert(desc@.subrange(0, i)[k as int] == p);
                }
            }
            assert forall|j: int|
                0 <= j < procs@.len() && ((#[trigger] procs@[j]).1 == root || desc@.subrange(
                    0,
                    k + 1,
                ).contains(procs@[j].1)) && procs@[j].0 != root implies desc@.contains(
                procs@[j].0,
            ) by {
                if procs@[j].1 != root && procs@[j].1 != p {
                    let sub = desc@.subrange(0, k + 1);
                    let a = choose|a: int| 0 <= a < k + 1 && #[trigger] sub[a] == procs@[j].1;
                    assert(a < k);
                    assert(before.subrange(0, k as int)[a] == procs@[j].1);
                    assert(before.contains(procs@[j].0));
                } else if procs@[j].1 == root {
                    assert(before.contains(procs@[j].0));
                }
            }
        }
        k = k + 1;
    }
    proof {
        assert(desc@.subrange(0, k as int) =~= desc@);
    }
    desc
}

proof fn lemma_listed_in_other(procs: Seq<(u32, u32)>, root: u32, r1: Seq<u32>, r2: Seq<u32>, i: int)
    requires
        is_descendant_list(procs, root, r1),
        is_descendant_list(procs, root, r2),
        0 <= i < r1.len(),
    ensures
        r2.contains(r1[i]),
    decreases i,
{
    assert(parent_found(procs, root, r1.subrange(0, i), r1[i]));
    let j = choose|j: int|
        0 <= j < procs.len() && (#[trigger] procs[j]).0 == r1[i] && (procs[j].1 == root
            || r1.subrange(0, i).contains(procs[j].1));
    assert(r1.contains(r1[i]));
    if procs[j].1 != root {
        let m = choose|m: int| 0 <= m < i && r1.subrange(0, i)[m] == procs[j].1;
        lemma_listed_in_other(procs, root, r1, r2, m);
    }
}

/// The descendants are determined by the snapshot: any two lists that
/// describe the descendants of `root` hold exactly the same processes.
pub proof fn lemma_descendants_exact(procs: Seq<(u32, u32)>, root: u32, r1: Seq<u32>, r2: Seq<u32>)
    requires
        is_descendant_list(procs, root, r1),
        is_descendant_list(procs, root, r2),
    ensures
        r1.to_set() == r2.to_set(),
{
    assert forall|x: u32| r1.contains(x) implies r2.contains(x) by {
        let i = choose|i: int| 0 <= i < r1.len() && r1[i] == x;
        lemma_listed_in_other(procs, root, r1, r2, i);
    }
    assert forall|x: u32| r2.contains(x) implies r1.contains(x) by {
        let i = choose|i: int| 0 <= i < r2.len() && r2[i] == x;
        lemma_listed_in_other(procs, root, r2, r1, i);
    }
    assert(r1.to_set() =~= r2.to_set());
}

/// Terminating in `termination_order` spares `root` and reaches every
/// process before any listed ancestor of it.
pub proof fn lemma_termination_order_bottom_up(procs: Seq<(u32, u32)>, root: u32, desc: Seq<u32>)
    requires
        is_descendant_list(procs, root, desc),
    ensures
        !termination_order(desc).contains(root),
        termination_order(desc).len() == desc.len(),
        forall|i: int|
            0 <= i < desc.len() ==> termination_order(desc)[desc.len() - 1 - i] == #[trigger] desc[i],
{
    let t = termination_order(desc);
    if t.contains(root) {
        let i = choose|i: int| 0 <= i < t.len() && t[i] == root;
        assert(desc[desc.len() - 1 - i] == root);
        assert(desc.contains(root));
    }
}

fn reversed(v: &Vec<u32>) -> (r: Vec<u32>)
    ensures
        r@ == v@.reverse(),
{
    let mut r: Vec<u32> = Vec::new();
    let mut i: usize = v.len();
    while i > 0
        invariant
            i <= v@.len(),
            r@ == v@.subrange(i as int, v@.len() as int).reverse(),
        decreases i,
    {
        i = i - 1;
        r.push(v[i]);
        assert(r@ =~= v@.subrange(i as int, v@.len() as int).reverse());
    }
    r
}

/// What one interrupt does to a pty.
#[derive(Clone, Debug)]
pub struct InterruptPlan {
    /// Write the interrupt byte into the pty's input first.
    pub write_byte: bool,
    /// The processes to terminate, in this order.
    pub terminate: Vec<u32>,
    /// Send the console's break sequence, for a command built into the shell.
    pub send_break: bool,
}

/// The plan for an interrupt the user typed, given the shell's descendants
/// (as `find_descendants` lists them) and whether the pty's writer is there:
/// write the byte; then terminate the descendants deepest first, or, if there
/// are none, send the break sequence.
pub fn plan_interrupt(writer_available: bool, descendants: &Vec<u32>) -> (r: InterruptPlan)
    ensures
        r.write_byte == writer_available,
        r.terminate@ == termination_order(descendants@),
        r.send_break == (descendants@.len() == 0),
{
    InterruptPlan {
        write_byte: writer_available,
        terminate: reversed(descendants),
        send_break: descendants.len() == 0,
    }
}

/// The plan for an interrupt sent by the program rather than typed: no byte
/// and no break sequence, only the descendants, deepest first.
pub fn plan_signal_interrupt(descendants: &Vec<u32>) -> (r: InterruptPlan)
    ensures
        !r.write_byte,
        r.terminate@ == termination_order(descendants@),
        !r.send_break,
{
    InterruptPlan { write_byte: false, terminate: reversed(descendants), send_break: false }
}

/// The interrupt byte (Ctrl-C).
pub const INTERRUPT_BYTE: u8 = 0x03;

pub open spec fn break_press() -> Seq<u8> {
    seq![0x1bu8, 0x5b, 0x33, 0x3b, 0x37, 0x30, 0x3b, 0x30, 0x3b, 0x31, 0x3b, 0x38, 0x3b, 0x31, 0x5f]
}

pub open spec fn break_release() -> Seq<u8> {
    seq![0x1bu8, 0x5b, 0x33, 0x3b, 0x37, 0x30, 0x3b, 0x30, 0x3b, 0x30, 0x3b, 0x38, 0x3b, 0x31, 0x5f]
}

/// The console input events for Ctrl-Break, press then release, in the
/// console's input-mode escape form `ESC [ 3;70;0;kd;8;1 _`.
pub fn break_sequence() -> (r: Vec<u8>)
    ensures
        r@ == break_press() + break_release(),
{
    let r: Vec<u8> = vec![
        0x1bu8, 0x5b, 0x33, 0x3b, 0x37, 0x30, 0x3b, 0x30, 0x3b, 0x31, 0x3b, 0x38, 0x3b, 0x31, 0x5f,
        0x1b, 0x5b, 0x33, 0x3b, 0x37, 0x30, 0x3b, 0x30, 0x3b, 0x30, 0x3b, 0x38, 0x3b, 0x31, 0x5f,
    ];
    assert(r@ =~= break_press() + break_release());
    r
}

} // verus!
