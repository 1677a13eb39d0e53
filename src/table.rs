//! The terminal table: which terminal ids are reserved, which are active,
//! and whether an active terminal still holds its input writer.
use vstd::prelude::*;

verus! {

/// What the table knows of a terminal whose process has been spawned.
#[derive(Clone, Copy, Debug, PartialEq, Eq, Structural)]
pub struct ActiveTerminal {
    pub child_pid: u32,
    pub has_writer: bool,
}

/// One row of the table: a reserved id (`entry == None`) or an active one.
#[derive(Clone, Copy, Debug)]
pub struct TerminalSlot {
    pub id: u32,
    pub entry: Option<ActiveTerminal>,
}

/// Failures of the terminal operations, each naming the terminal it concerns.
#[derive(Clone, Debug, PartialEq, Eq)]
pub enum PtyError {
    TerminalNotFound { terminal_id: u32 },
    WriterUnavailable { terminal_id: u32 },
    CommandNotFound { terminal_id: u32, command: String },
}

/// The registry from terminal id to pty process state.
pub struct WindowsPtyBackend {
    slots: Vec<TerminalSlot>,
}

pub open spec fn has_id(s: Seq<TerminalSlot>, id: u32) -> bool {
    exists|i: int| 0 <= i < s.len() && s[i].id == id
}

pub open spec fn ids_unique(s: Seq<TerminalSlot>) -> bool {
    forall|i: int, j: int| 0 <= i < j < s.len() ==> s[i].id != s[j].id
}

pub open spec fn slots_map(s: Seq<TerminalSlot>) -> Map<u32, Option<ActiveTerminal>> {
    Map::new(
        |k: u32| has_id(s, k),
        |k: u32| s[choose|i: int| 0 <= i < s.len() && s[i].id == k].entry,
    )
}

/// `r` is what allocation hands out next for the ids `ids`: one past the
/// largest id, `0` for no ids, and nothing when the largest id is `u32::MAX`.
pub open spec fn is_next_terminal_id(ids: Set<u32>, r: Option<u32>) -> bool {
    match r {
        None => ids.contains(u32::MAX),
        Some(n) => (forall|k: u32| ids.contains(k) ==> k < n) && (n == 0 || ids.contains(
            (n - 1) as u32,
        )),
    }
}

/// The id of the active terminal running `pid`, if any, the smallest such id
/// when several match.
pub open spec fn is_terminal_of_pid(
    m: Map<u32, Option<ActiveTerminal>>,
    pid: u32,
    r: Option<u32>,
) -> bool {
    match r {
        None => forall|k: u32|
            m.contains_key(k) && m[k].is_some() ==> m[k].unwrap().child_pid != pid,
        Some(id) => m.contains_key(id) && m[id].is_some() && m[id].unwrap().child_pid == pid && (
        forall|k: u32|
            m.contains_key(k) && m[k].is_some() && m[k].unwrap().child_pid == pid ==> id <= k),
    }
}

proof fn lemma_map_at(s: Seq<TerminalSlot>, i: int)
    requires
        ids_unique(s),
        0 <= i < s.len(),
    ensures
        slots_map(s).contains_key(s[i].id),
        slots_map(s)[s[i].id] == s[i].entry,
{
    let k = s[i].id;
    assert(has_id(s, k));
    let j = choose|j: int| 0 <= j < s.len() && s[j].id == k;
    assert(j == i);
}

proof fn lemma_map_update(s: Seq<TerminalSlot>, i: int, e: Option<ActiveTerminal>)
    requires
        ids_unique(s),
        0 <= i < s.len(),
    ensures
        ids_unique(s.update(i, TerminalSlot { id: s[i].id, entry: e })),
        slots_map(s.update(i, TerminalSlot { id: s[i].id, entry: e })) =~= slots_map(s).insert(
            s[i].id,
            e,
        ),
{
    let t = s.update(i, TerminalSlot { id: s[i].id, entry: e });
    assert(ids_unique(t));
    assert forall|k: u32| #[trigger] has_id(t, k) == has_id(s, k) by {
        if has_id(s, k) {
            let j = choose|j: int| 0 <= j < s.len() && s[j].id == k;
            assert(t[j].id == k);
        }
        if has_id(t, k) {
            let j = choose|j: int| 0 <= j < t.len() && t[j].id == k;
            assert(s[j].id == k);
        }
    }
    assert forall|k: u32| has_id(t, k) implies slots_map(t)[k] == slots_map(s).insert(s[i].id, e)[k] by {
        let j = choose|j: int| 0 <= j < t.len() && t[j].id == k;
        lemma_map_at(t, j);
        lemma_map_at(s, j);
    }
}

proof fn lemma_map_push(s: Seq<TerminalSlot>, slot: TerminalSlot)
    requires
        ids_unique(s),
        !has_id(s, slot.id),
    ensures
        ids_unique(s.push(slot)),
        slots_map(s.push(slot)) =~= slots_map(s).insert(slot.id, slot.entry),
{
    let t = s.push(slot);
    assert(ids_unique(t)) by {
        assert forall|i: int, j: int| 0 <= i < j < t.len() implies t[i].id != t[j].id by {
            if j == s.len() {
                assert(s[i].id == t[i].id);
            }
        }
    }
    assert forall|k: u32| #[trigger] has_id(t, k) == (has_id(s, k) || k == slot.id) by {
        if has_id(s, k) {
            let j = choose|j: int| 0 <= j < s.len() && s[j].id == k;
            assert(t[j].id == k);
        }
        if k == slot.id {
            assert(t[s.len() as int].id == k);
        }
        if has_id(t, k) && k != slot.id {
            let j = choose|j: int| 0 <= j < t.len() && t[j].id == k;
            assert(s[j].id == k);
        }
    }
    assert forall|k: u32| has_id(t, k) implies slots_map(t)[k] == slots_map(s).insert(
        slot.id,
        slot.entry,
    )[k] by {
        let j = choose|j: int| 0 <= j < t.len() && t[j].id == k;
        lemma_map_at(t, j);
        if j < s.len() {
            lemma_map_at(s, j);
        }
    }
}

proof fn lemma_map_remove(s: Seq<TerminalSlot>, i: int)
    requires
        ids_unique(s),
        0 <= i < s.len(),
    ensures
        ids_unique(s.remove(i)),
        slots_map(s.remove(i)) =~= slots_map(s).remove(s[i].id),
{
    let t = s.remove(i);
    assert(ids_unique(t)) by {
        assert forall|a: int, b: int| 0 <= a < b < t.len() implies t[a].id != t[b].id by {
            let a2 = if a < i { a } else { a + 1 };
            let b2 = if b < i { b } else { b + 1 };
            assert(t[a] == s[a2]);
            assert(t[b] == s[b2]);
        }
    }
    assert forall|k: u32| #[trigger] has_id(t, k) == (has_id(s, k) && k != s[i].id) by {
        if has_id(s, k) && k != s[i].id {
            let j = choose|j: int| 0 <= j < s.len() && s[j].id == k;
            if j < i {
                assert(t[j].id == k);
            } else {
                assert(t[j - 1].id == k);
            }
        }
        if has_id(t, k) {
            let j = choose|j: int| 0 <= j < t.len() && t[j].id == k;
            let j2 = if j < i { j } else { j + 1 };
            assert(s[j2].id == k);
        }
    }
    assert forall|k: u32| has_id(t, k) implies slots_map(t)[k] == slots_map(s).remove(s[i].id)[k] by {
        let j = choose|j: int| 0 <= j < t.len() && t[j].id == k;
        let j2 = if j < i { j } else { j + 1 };
        lemma_map_at(t, j);
        lemma_map_at(s, j2);
    }
}

/// What a write of `buf` to the terminal `id` amounts to: the interrupt
/// byte alone starts the interrupt policy; other bytes go to the writer.
#[derive(Clone, Copy, Debug, PartialEq, Eq, Structural)]
pub enum StdinAction {
    Interrupt,
    Write,
}

/// What a resize request amounts to.
#[derive(Clone, Copy, Debug, PartialEq, Eq, Structural)]
pub enum ResizeAction {
    Resize { cols: u16, rows: u16 },
    Ignore,
    Missing,
}

pub open spec fn is_active(m: Map<u32, Option<ActiveTerminal>>, id: u32) -> bool {
    m.contains_key(id) && m[id].is_some()
}

pub open spec fn stdin_write_outcome(
    m: Map<u32, Option<ActiveTerminal>>,
    id: u32,
    buf: Seq<u8>,
) -> Result<StdinAction, PtyError> {
    if !is_active(m, id) {
        Err(PtyError::TerminalNotFound { terminal_id: id })
    } else if !m[id].unwrap().has_writer {
        Err(PtyError::WriterUnavailable { terminal_id: id })
    } else if buf == seq![0x03u8] {
        Ok(StdinAction::Interrupt)
    } else {
        Ok(StdinAction::Write)
    }
}

pub open spec fn writer_take_outcome(m: Map<u32, Option<ActiveTerminal>>, id: u32) -> Result<
    (),
    PtyError,
> {
    if !is_active(m, id) {
        Err(PtyError::TerminalNotFound { terminal_id: id })
    } else if m[id].unwrap().has_writer {
        Ok(())
    } else {
        Err(PtyError::WriterUnavailable { terminal_id: id })
    }
}

pub open spec fn after_writer_take(m: Map<u32, Option<ActiveTerminal>>, id: u32) -> Map<
    u32,
    Option<ActiveTerminal>,
> {
    if is_active(m, id) {
        m.insert(id, Some(ActiveTerminal { child_pid: m[id].unwrap().child_pid, has_writer: false }))
    } else {
        m
    }
}

pub open spec fn resize_outcome(
    m: Map<u32, Option<ActiveTerminal>>,
    id: u32,
    cols: u16,
    rows: u16,
) -> ResizeAction {
    if !is_active(m, id) {
        ResizeAction::Missing
    } else if cols == 0 || rows == 0 {
        ResizeAction::Ignore
    } else {
        ResizeAction::Resize { cols, rows }
    }
}

impl View for WindowsPtyBackend {
    type V = Map<u32, Option<ActiveTerminal>>;

    closed spec fn view(&self) -> Map<u32, Option<ActiveTerminal>> {
        slots_map(self.slots@)
    }
}

impl WindowsPtyBackend {
    /// The table's invariant: no id occurs in two rows.
    pub closed spec fn wf(&self) -> bool {
        ids_unique(self.slots@)
    }

    /// An empty table.
    pub fn new() -> (r: Result<WindowsPtyBackend, PtyError>)
        ensures
            r is Ok,
            r.unwrap().wf(),
            r.unwrap()@ == Map::<u32, Option<ActiveTerminal>>::empty(),
    {
        let b = WindowsPtyBackend { slots: Vec::new() };
        assert(b@ =~= Map::<u32, Option<ActiveTerminal>>::empty());
        Ok(b)
    }

    fn find_slot(&self, id: u32) -> (r: Option<usize>)
        requires
            self.wf(),
        ensures
            match r {
                Some(i) => i < self.slots@.len() && self.slots@[i as int].id == id,
                None => !has_id(self.slots@, id),
            },
    {
        let mut i: usize = 0;
        while i < self.slots.len()
            invariant
                i <= self.slots@.len(),
                forall|j: int| 0 <= j < i ==> self.slots@[j].id != id,
            decreases self.slots@.len() - i,
        {
            if self.slots[i].id == id {
                return Some(i);
            }
            i = i + 1;
        }
        None
    }

    fn set_entry(&mut self, id: u32, entry: Option<ActiveTerminal>)
        requires
            old(self).wf(),
        ensures
            final(self).wf(),
            final(self)@ == old(self)@.insert(id, entry),
    {
        match self.find_slot(id) {
            Some(i) => {
                proof {
                    lemma_map_update(self.slots@, i as int, entry);
                }
                self.slots.set(i, TerminalSlot { id, entry });
            },
            None => {
                proof {
                    lemma_map_push(self.slots@, TerminalSlot { id, entry });
                }
                self.slots.push(TerminalSlot { id, entry });
            },
        }
    }

    /// Reserves `terminal_id`: the table holds it, with no process yet,
    /// replacing whatever it held under that id.
    pub fn reserve_terminal_id(&mut self, terminal_id: u32)
        requires
            old(self).wf(),
        ensures
            final(self).wf(),
            final(self)@ == old(self)@.insert(terminal_id, None),
    {
        self.set_entry(terminal_id, None);
    }

    /// Removes `terminal_id` from the table.
    pub fn clear_terminal_id(&mut self, terminal_id: u32)
        requires
            old(self).wf(),
        ensures
            final(self).wf(),
            final(self)@ == old(self)@.remove(terminal_id),
    {
        match self.find_slot(terminal_id) {
            Some(i) => {
                proof {
                    lemma_map_remove(self.slots@, i as int);
                }
                self.slots.remove(i);
            },
            None => {
                assert(self@ =~= self@.remove(terminal_id));
            },
        }
    }

    /// The id that allocation hands out next: one past the largest id in the
    /// table, or `0` for an empty table. It reserves nothing.
    pub fn next_terminal_id(&self) -> (r: Option<u32>)
        requires
            self.wf(),
        ensures
            is_next_terminal_id(self@.dom(), r),
    {
        let mut best: Option<u32> = None;
        let mut i: usize = 0;
        while i < self.slots.len()
            invariant
                i <= self.slots@.len(),
                match best {
                    None => i == 0,
                    Some(m) => (exists|j: int| 0 <= j < i && self.slots@[j].id == m) && forall|
                        j: int,
                    |
                        0 <= j < i ==> self.slots@[j].id <= m,
                },
            decreases self.slots@.len() - i,
        {
            let id = self.slots[i].id;
            match best {
                None => {
                    best = Some(id);
                },
                Some(m) => {
                    if id > m {
                        best = Some(id);
                    }
                },
            }
            i = i + 1;
        }
        match best {
            None => {
                assert forall|k: u32| !self@.dom().contains(k) by {}
                Some(0)
            },
            Some(m) => {
                assert(self@.dom().contains(m)) by {
                    let j = choose|j: int| 0 <= j < i && self.slots@[j].id == m;
                    assert(has_id(self.slots@, m));
                }
                assert forall|k: u32| self@.dom().contains(k) implies k <= m by {
                    let j = choose|j: int| 0 <= j < self.slots@.len() && self.slots@[j].id == k;
                }
                if m == u32::MAX {
                    None
                } else {
                    Some(m + 1)
                }
            },
        }
    }

    /// What the table holds for `id` when it is active; `None` for an id
    /// that is reserved or absent.
    pub fn active_terminal(&self, id: u32) -> (r: Option<ActiveTerminal>)
        requires
            self.wf(),
        ensures
            r == (if is_active(self@, id) { self@[id] } else { None }),
    {
        self.entry_of(id)
    }

    fn entry_of(&self, id: u32) -> (r: Option<ActiveTerminal>)
        requires
            self.wf(),
        ensures
            r == (if self@.contains_key(id) { self@[id] } else { None }),
    {
        match self.find_slot(id) {
            Some(i) => {
                proof {
                    lemma_map_at(self.slots@, i as int);
                }
                self.slots[i].entry
            },
            None => None,
        }
    }

    /// Records that the process of `terminal_id` was spawned as `child_pid`,
    /// holding its input writer.
    pub fn mark_spawned(&mut self, terminal_id: u32, child_pid: u32)
        requires
            old(self).wf(),
        ensures
            final(self).wf(),
            final(self)@ == old(self)@.insert(
                terminal_id,
                Some(ActiveTerminal { child_pid, has_writer: true }),
            ),
    {
        self.set_entry(terminal_id, Some(ActiveTerminal { child_pid, has_writer: true }));
    }

    /// Moves the writer of `terminal_id` out to its one consumer: only the
    /// first take of an active terminal succeeds.
    pub fn take_writer(&mut self, terminal_id: u32) -> (r: Result<(), PtyError>)
        requires
            old(self).wf(),
        ensures
            final(self).wf(),
            r == writer_take_outcome(old(self)@, terminal_id),
            final(self)@ == after_writer_take(old(self)@, terminal_id),
    {
        match self.entry_of(terminal_id) {
            Some(e) => {
                if e.has_writer {
                    self.set_entry(
                        terminal_id,
                        Some(ActiveTerminal { child_pid: e.child_pid, has_writer: false }),
                    );
                    Ok(())
                } else {
                    assert(self@ =~= after_writer_take(self@, terminal_id));
                    self.set_entry(terminal_id, Some(e));
                    Err(PtyError::WriterUnavailable { terminal_id })
                }
            },
            None => Err(PtyError::TerminalNotFound { terminal_id }),
        }
    }

    /// Decides what writing `buf` to the input of `terminal_id` does: fails
    /// for a terminal that is not active, or whose writer is gone.
    pub fn plan_stdin_write(&self, terminal_id: u32, buf: &[u8]) -> (r: Result<
        StdinAction,
        PtyError,
    >)
        requires
            self.wf(),
        ensures
            r == stdin_write_outcome(self@, terminal_id, buf@),
    {
        match self.entry_of(terminal_id) {
            Some(e) => {
                if !e.has_writer {
                    Err(PtyError::WriterUnavailable { terminal_id })
                } else if buf.len() == 1 && buf[0] == 0x03u8 {
                    assert(buf@ =~= seq![0x03u8]);
                    Ok(StdinAction::Interrupt)
                } else {
                    Ok(StdinAction::Write)
                }
            },
            None => Err(PtyError::TerminalNotFound { terminal_id }),
        }
    }

    /// Decides what draining `terminal_id` does: `Ok(true)` flushes its
    /// writer, `Ok(false)` has no writer to flush.
    pub fn plan_drain(&self, terminal_id: u32) -> (r: Result<bool, PtyError>)
        requires
            self.wf(),
        ensures
            is_active(self@, terminal_id) ==> r == Ok::<bool, PtyError>(
                self@[terminal_id].unwrap().has_writer,
            ),
            !is_active(self@, terminal_id) ==> r == Err::<bool, PtyError>(
                PtyError::TerminalNotFound { terminal_id },
            ),
    {
        match self.entry_of(terminal_id) {
            Some(e) => Ok(e.has_writer),
            None => Err(PtyError::TerminalNotFound { terminal_id }),
        }
    }

    /// Decides what a resize of `terminal_id` to `cols` x `rows` does: a zero
    /// dimension is ignored, and an id that is not active is only reported.
    pub fn plan_resize(&self, terminal_id: u32, cols: u16, rows: u16) -> (r: ResizeAction)
        requires
            self.wf(),
        ensures
            r == resize_outcome(self@, terminal_id, cols, rows),
    {
        match self.entry_of(terminal_id) {
            Some(_) => {
                if cols == 0 || rows == 0 {
                    ResizeAction::Ignore
                } else {
                    ResizeAction::Resize { cols, rows }
                }
            },
            None => ResizeAction::Missing,
        }
    }

    /// The active terminal whose process is `pid`; the smallest id wins.
    pub fn terminal_of_pid(&self, pid: u32) -> (r: Option<u32>)
        requires
            self.wf(),
        ensures
            is_terminal_of_pid(self@, pid, r),
    {
        let mut best: Option<u32> = None;
        let mut i: usize = 0;
        while i < self.slots.len()
            invariant
                i <= self.slots@.len(),
                ids_unique(self.slots@),
                forall|j: int|
                    0 <= j < i && (#[trigger] self.slots@[j]).entry.is_some()
                        && self.slots@[j].entry.unwrap().child_pid == pid ==> best.is_some()
                        && best.unwrap() <= self.slots@[j].id,
                match best {
                    None => true,
                    Some(b) => exists|j: int|
                        0 <= j < i && self.slots@[j].id == b && self.slots@[j].entry.is_some()
                            && self.slots@[j].entry.unwrap().child_pid == pid,
                },
            decreases self.slots@.len() - i,
        {
            let slot = self.slots[i];
            match slot.entry {
                Some(e) => {
                    if e.child_pid == pid {
                        match best {
                            None => {
                                best = Some(slot.id);
                            },
                            Some(b) => {
                                if slot.id < b {
                                    best = Some(slot.id);
                                }
                            },
                        }
                    }
                },
                None => {},
            }
            i = i + 1;
        }
        proof {
            assert forall|k: u32|
                self@.contains_key(k) && self@[k].is_some() && self@[k].unwrap().child_pid
                    == pid implies best.is_some() && best.unwrap() <= k by {
                let j = choose|j: int| 0 <= j < self.slots@.len() && self.slots@[j].id == k;
                lemma_map_at(self.slots@, j);
                assert(self.slots@[j].entry.is_some());
            }
            match best {
                Some(b) => {
                    let j = choose|j: int|
                        0 <= j < i && self.slots@[j].id == b && self.slots@[j].entry.is_some()
                            && self.slots@[j].entry.unwrap().child_pid == pid;
                    lemma_map_at(self.slots@, j);
                },
                None => {},
            }
        }
        best
    }
}

/// The id handed out next is determined by the ids in the table.
pub proof fn lemma_next_terminal_id_determined(ids: Set<u32>, a: Option<u32>, b: Option<u32>)
    requires
        is_next_terminal_id(ids, a),
        is_next_terminal_id(ids, b),
    ensures
        a == b,
{
    match (a, b) {
        (Some(x), Some(y)) => {
            if x != y {
                if x < y {
                    assert(ids.contains((y - 1) as u32));
                } else {
                    assert(ids.contains((x - 1) as u32));
                }
            }
        },
        (Some(x), None) => {
            assert(ids.contains(u32::MAX));
        },
        (None, Some(y)) => {
            assert(ids.contains(u32::MAX));
        },
        _ => {},
    }
}

/// Reserving an id moves the id handed out next strictly past it; only a
/// table that holds `u32::MAX` has no next id.
pub proof fn lemma_next_after_reserve(ids: Set<u32>, id: u32, r: Option<u32>)
    requires
        is_next_terminal_id(ids.insert(id), r),
    ensures
        r is Some ==> r.unwrap() > id,
        r is None <==> ids.insert(id).contains(u32::MAX),
{
    assert(ids.insert(id).contains(id));
}

/// The writer of a terminal goes out once: after any take, a second take fails.
pub proof fn lemma_writer_taken_once(m: Map<u32, Option<ActiveTerminal>>, id: u32)
    ensures
        writer_take_outcome(after_writer_take(m, id), id) is Err,
{
}

/// Once a terminal is cleared, every write to it fails.
pub proof fn lemma_write_after_clear_fails(
    m: Map<u32, Option<ActiveTerminal>>,
    id: u32,
    buf: Seq<u8>,
)
    ensures
        stdin_write_outcome(m.remove(id), id, buf) == Err::<StdinAction, PtyError>(
            PtyError::TerminalNotFound { terminal_id: id },
        ),
{
}

/// Once a writer is taken, every write fails, the interrupt byte included.
pub proof fn lemma_write_after_take_fails(
    m: Map<u32, Option<ActiveTerminal>>,
    id: u32,
    buf: Seq<u8>,
)
    ensures
        stdin_write_outcome(after_writer_take(m, id), id, buf) is Err,
{
}

} // verus!
