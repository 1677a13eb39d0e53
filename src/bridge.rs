//! The buffering between a pty's blocking reader thread and the awaiting
//! reader: chunks arrive whole and leave in pieces no larger than the
//! caller's buffer, in order.
use vstd::prelude::*;

verus! {

/// The size of the reader thread's buffer.
pub const READ_CHUNK_SIZE: usize = 8192;

/// How many chunks may wait between the reader thread and the consumer.
pub const CHUNK_QUEUE_CAPACITY: usize = 64;

/// What the reader thread does with the result of one blocking read.
#[derive(Clone, Copy, Debug, PartialEq, Eq, Structural)]
pub enum PumpAction {
    /// Forward the first `n` bytes of the buffer and read again.
    Forward { n: usize },
    /// End of stream: stop without forwarding anything.
    Stop,
    /// Forward the error once, then stop.
    ForwardErrorAndStop,
}

/// The reader thread's step: `Some(n)` is a read of `n` bytes, `None` a
/// failed read.
pub fn pump_action(read: Option<usize>) -> (r: PumpAction)
    ensures
        read == Some(0usize) ==> r == PumpAction::Stop,
        read is None ==> r == PumpAction::ForwardErrorAndStop,
        forall|n: usize| read == Some(n) && n > 0 ==> r == (PumpAction::Forward { n }),
{
    match read {
        Some(n) => if n == 0 {
            PumpAction::Stop
        } else {
            PumpAction::Forward { n }
        },
        None => PumpAction::ForwardErrorAndStop,
    }
}

pub open spec fn piece_len(s: Seq<u8>, max: usize) -> int {
    if s.len() < max { s.len() as int } else { max as int }
}

/// The bytes one read of at most `max` bytes hands out of `s`.
pub open spec fn delivered(s: Seq<u8>, max: usize) -> Seq<u8> {
    s.take(piece_len(s, max))
}

/// The bytes of `s` that stay buffered after that read.
pub open spec fn left_over(s: Seq<u8>, max: usize) -> Seq<u8> {
    s.skip(piece_len(s, max))
}

/// The bytes received from the reader thread and not yet handed out.
pub struct ReadBridge {
    pending: Vec<u8>,
}

impl View for ReadBridge {
    type V = Seq<u8>;

    closed spec fn view(&self) -> Seq<u8> {
        self.pending@
    }
}

impl ReadBridge {
    /// A bridge with nothing buffered.
    pub fn new() -> (r: ReadBridge)
        ensures
            r@ == Seq::<u8>::empty(),
    {
        ReadBridge { pending: Vec::new() }
    }

    fn split_off_piece(&mut self, max: usize) -> (r: Vec<u8>)
        ensures
            r@ == delivered(old(self)@, max),
            final(self)@ == left_over(old(self)@, max),
    {
        let n = if self.pending.len() < max {
            self.pending.len()
        } else {
            max
        };
        let mut out: Vec<u8> = Vec::new();
        let mut rest: Vec<u8> = Vec::new();
        let mut i: usize = 0;
        while i < self.pending.len()
            invariant
                n <= self.pending@.len(),
                n == piece_len(self.pending@, max),
                i <= self.pending@.len(),
                out@ == self.pending@.subrange(0, if i < n { i as int } else { n as int }),
                rest@ == if i < n { Seq::<u8>::empty() } else { self.pending@.subrange(n as int, i as int) },
            decreases self.pending@.len() - i,
        {
            if i < n {
                out.push(self.pending[i]);
            } else {
                rest.push(self.pending[i]);
            }
            i = i + 1;
            assert(out@ =~= self.pending@.subrange(0, if i < n { i as int } else { n as int }));
            assert(rest@ =~= if i < n { Seq::<u8>::empty() } else { self.pending@.subrange(n as int, i as int) });
        }
        assert(out@ =~= delivered(self.pending@, max));
        assert(rest@ =~= left_over(self.pending@, max));
        self.pending = rest;
        out
    }

    /// Serves buffered bytes first: `None` when nothing is buffered,
    /// otherwise up to `max` of them, in order.
    pub fn take_pending(&mut self, max: usize) -> (r: Option<Vec<u8>>)
        ensures
            old(self)@.len() == 0 ==> r is None && final(self)@ == old(self)@,
            old(self)@.len() > 0 ==> r is Some && r.unwrap()@ == delivered(old(self)@, max)
                && final(self)@ == left_over(old(self)@, max),
    {
        if self.pending.len() == 0 {
            None
        } else {
            Some(self.split_off_piece(max))
        }
    }

    /// Takes a chunk from the reader thread: hands out up to `max` bytes of
    /// what is buffered followed by the chunk, and keeps the rest.
    pub fn accept_chunk(&mut self, chunk: &[u8], max: usize) -> (r: Vec<u8>)
        ensures
            r@ == delivered(old(self)@ + chunk@, max),
            final(self)@ == left_over(old(self)@ + chunk@, max),
    {
        let mut i: usize = 0;
        while i < chunk.len()
            invariant
                i <= chunk@.len(),
                self@ == old(self)@ + chunk@.subrange(0, i as int),
            decreases chunk@.len() - i,
        {
            self.pending.push(chunk[i]);
            i = i + 1;
            assert(self@ =~= old(self)@ + chunk@.subrange(0, i as int));
        }
        assert(chunk@.subrange(0, i as int) =~= chunk@);
        self.split_off_piece(max)
    }

    /// A read once the reader thread has gone: buffered bytes while there are
    /// any, then an empty read, which is end of stream.
    pub fn read_after_close(&mut self, max: usize) -> (r: Vec<u8>)
        ensures
            r@ == delivered(old(self)@, max),
            final(self)@ == left_over(old(self)@, max),
    {
        self.split_off_piece(max)
    }
}

/// Reads hand bytes out in order: what one read delivers followed by what
/// stays buffered is exactly what was buffered.
pub proof fn lemma_reads_keep_order(s: Seq<u8>, max: usize)
    ensures
        delivered(s, max) + left_over(s, max) == s,
{
    assert(delivered(s, max) + left_over(s, max) =~= s);
}

/// Once the reader thread is gone, reads into a non-empty buffer come to an
/// end: each read of buffered bytes shrinks the buffer, and a read with
/// nothing buffered is empty, which is end of stream.
pub proof fn lemma_closed_stream_ends(s: Seq<u8>, max: usize)
    requires
        max > 0,
    ensures
        s.len() > 0 ==> left_over(s, max).len() < s.len() && delivered(s, max).len() > 0,
        s.len() == 0 ==> delivered(s, max).len() == 0 && left_over(s, max).len() == 0,
{
}

} // verus!
