//! Session discovery: which directory entries are candidate endpoints, and
//! whether a probe's reply shows a live server. Also the step of the
//! terminal-size poll that turns size changes into resize events.
use vstd::prelude::*;
use crate::frame::FrameError;

verus! {

/// The names of the entries that are sockets (or pipe markers), in order.
pub open spec fn candidates_of(entries: Seq<(Seq<char>, bool)>) -> Seq<Seq<char>>
    decreases entries.len(),
{
    if entries.len() == 0 {
        Seq::empty()
    } else {
        let rest = candidates_of(entries.drop_last());
        if entries.last().1 {
            rest.push(entries.last().0)
        } else {
            rest
        }
    }
}

pub open spec fn entries_view(entries: Seq<(String, bool)>) -> Seq<(Seq<char>, bool)> {
    entries.map_values(|e: (String, bool)| (e.0@, e.1))
}

/// Keeps the names of the entries marked as connectable endpoints, dropping
/// stale regular files.
pub fn select_candidates(entries: &Vec<(String, bool)>) -> (r: Vec<String>)
    ensures
        r@.map_values(|s: String| s@) == candidates_of(entries_view(entries@)),
{
    let mut r: Vec<String> = Vec::new();
    let mut i: usize = 0;
    while i < entries.len()
        invariant
            i <= entries@.len(),
            r@.map_values(|s: String| s@) == candidates_of(entries_view(entries@.subrange(0, i as int))),
        decreases entries@.len() - i,
    {
        let ghost before = r@;
        if entries[i].1 {
            r.push(String::from_str(entries[i].0.as_str()));
        }
        proof {
            let pre = entries@.subrange(0, i + 1);
            assert(entries_view(pre).drop_last() =~= entries_view(entries@.subrange(0, i as int)));
            assert(entries_view(pre).last() == (entries@[i as int].0@, entries@[i as int].1));
            if entries@[i as int].1 {
                assert(r@.map_values(|s: String| s@) =~= before.map_values(|s: String| s@).push(
                    entries@[i as int].0@,
                ));
            }
        }
        i = i + 1;
    }
    assert(entries@.subrange(0, i as int) =~= entries@);
    r
}

/// A probe found a live server exactly when its reply decoded to a whole
/// frame whose payload is the acknowledgment `ack`.
pub fn probe_verdict(reply: &Result<Option<Vec<u8>>, FrameError>, ack: &[u8]) -> (r: bool)
    ensures
        r == (match reply {
            Ok(Some(p)) => p@ == ack@,
            _ => false,
        }),
{
    match reply {
        Ok(Some(p)) => bytes_equal(p.as_slice(), ack),
        _ => false,
    }
}

fn bytes_equal(a: &[u8], b: &[u8]) -> (r: bool)
    ensures
        r == (a@ == b@),
{
    if a.len() != b.len() {
        return false;
    }
    let mut i: usize = 0;
    while i < a.len()
        invariant
            a@.len() == b@.len(),
            i <= a@.len(),
            forall|j: int| 0 <= j < i ==> a@[j] == b@[j],
        decreases a@.len() - i,
    {
        if a[i] != b[i] {
            assert(a@[i as int] != b@[i as int]);
            return false;
        }
        i = i + 1;
    }
    assert(a@ =~= b@);
    true
}

/// One poll of the terminal size: the size to remember, and whether to
/// emit a resize event. A failed poll (`None`) changes nothing.
pub fn resize_poll_step(last: (u16, u16), polled: Option<(u16, u16)>) -> (r: ((u16, u16), bool))
    ensures
        polled is None ==> r == (last, false),
        forall|s: (u16, u16)| polled == Some(s) ==> r == (s, s != last),
{
    match polled {
        Some(s) => {
            let changed = s.0 != last.0 || s.1 != last.1;
            (s, changed)
        },
        None => (last, false),
    }
}

} // verus!
