//! Length-prefixed framing: a 4-byte little-endian length, then exactly that
//! many payload bytes.
use vstd::prelude::*;

verus! {

/// The largest payload a frame may declare (64 MiB).
pub const MAX_IPC_MSG_SIZE: usize = 64 * 1024 * 1024;

/// Why a frame was refused.
#[derive(Clone, Copy, Debug, PartialEq, Eq, Structural)]
pub enum FrameError {
    /// The header declared more than `MAX_IPC_MSG_SIZE` bytes.
    TooLarge { len: u32 },
}

pub open spec fn le_bytes(n: u32) -> Seq<u8> {
    seq![
        (n % 256) as u8,
        ((n / 256) % 256) as u8,
        ((n / 65536) % 256) as u8,
        (n / 16777216) as u8,
    ]
}

/// The length a header `h` (at least 4 bytes) declares.
pub open spec fn le_value(h: Seq<u8>) -> u32 {
    (h[0] as int + 256 * h[1] as int + 65536 * h[2] as int + 16777216 * h[3] as int) as u32
}

/// The bytes that carry `payload`.
pub open spec fn frame_of(payload: Seq<u8>) -> Seq<u8> {
    le_bytes(payload.len() as u32) + payload
}

/// What the decoder yields for the pending bytes `s`: a payload, nothing yet
/// (fewer bytes than the frame needs), or a refusal read off the header alone.
pub open spec fn frame_result(s: Seq<u8>) -> Result<Option<Seq<u8>>, FrameError> {
    if s.len() < 4 {
        Ok(None)
    } else if le_value(s) as int > MAX_IPC_MSG_SIZE as int {
        Err(FrameError::TooLarge { len: le_value(s) })
    } else if s.len() < 4 + le_value(s) as int {
        Ok(None)
    } else {
        Ok(Some(s.subrange(4, 4 + le_value(s) as int)))
    }
}

/// The bytes left pending after the decoder's step on `s`: a refused header
/// is dropped, a decoded frame is consumed.
pub open spec fn frame_rest(s: Seq<u8>) -> Seq<u8> {
    if s.len() < 4 {
        s
    } else if le_value(s) as int > MAX_IPC_MSG_SIZE as int {
        s.subrange(4, s.len() as int)
    } else if s.len() < 4 + le_value(s) as int {
        s
    } else {
        s.subrange(4 + le_value(s) as int, s.len() as int)
    }
}

pub open spec fn step_view(r: Result<Option<Vec<u8>>, FrameError>) -> Result<
    Option<Seq<u8>>,
    FrameError,
> {
    match r {
        Ok(Some(v)) => Ok(Some(v@)),
        Ok(None) => Ok(None),
        Err(e) => Err(e),
    }
}

proof fn lemma_le_round_trip(n: u32)
    ensures
        le_value(le_bytes(n)) == n,
{
    let b = le_bytes(n);
    assert(b[0] as int == n % 256);
    assert(b[1] as int == (n / 256) % 256);
    assert(b[2] as int == (n / 65536) % 256);
    assert(b[3] as int == n / 16777216);
    assert(n % 256 + 256 * ((n / 256) % 256) + 65536 * ((n / 65536) % 256) + 16777216 * (n
        / 16777216) == n) by (nonlinear_arith);
}

fn copy_range(v: &Vec<u8>, from: usize, to: usize) -> (r: Vec<u8>)
    requires
        from <= to <= v@.len(),
    ensures
        r@ == v@.subrange(from as int, to as int),
{
    let mut r: Vec<u8> = Vec::new();
    let mut i: usize = from;
    while i < to
        invariant
            from <= i <= to <= v@.len(),
            r@ == v@.subrange(from as int, i as int),
        decreases to - i,
    {
        r.push(v[i]);
        i = i + 1;
        assert(r@ =~= v@.subrange(from as int, i as int));
    }
    r
}

/// Frames `payload`: its length as 4 little-endian bytes, then the payload.
pub fn encode_frame(payload: &[u8]) -> (r: Vec<u8>)
    requires
        payload@.len() <= u32::MAX,
    ensures
        r@ == frame_of(payload@),
{
    let n = payload.len() as u32;
    let mut r: Vec<u8> = Vec::new();
    r.push((n % 256) as u8);
    r.push(((n / 256) % 256) as u8);
    r.push(((n / 65536) % 256) as u8);
    r.push((n / 16777216) as u8);
    assert(r@ =~= le_bytes(n));
    let mut i: usize = 0;
    while i < payload.len()
        invariant
            i <= payload@.len(),
            r@ == le_bytes(n) + payload@.subrange(0, i as int),
        decreases payload@.len() - i,
    {
        r.push(payload[i]);
        i = i + 1;
        assert(r@ =~= le_bytes(n) + payload@.subrange(0, i as int));
    }
    assert(payload@.subrange(0, i as int) =~= payload@);
    r
}

/// Cuts frames out of a byte stream that arrives in pieces.
pub struct FrameDecoder {
    pending: Vec<u8>,
}

impl View for FrameDecoder {
    type V = Seq<u8>;

    closed spec fn view(&self) -> Seq<u8> {
        self.pending@
    }
}

impl FrameDecoder {
    /// A decoder with nothing pending.
    pub fn new() -> (r: FrameDecoder)
        ensures
            r@ == Seq::<u8>::empty(),
    {
        FrameDecoder { pending: Vec::new() }
    }

    /// Appends bytes read from the stream.
    pub fn push(&mut self, bytes: &[u8])
        ensures
            final(self)@ == old(self)@ + bytes@,
    {
        let mut i: usize = 0;
        while i < bytes.len()
            invariant
                i <= bytes@.len(),
                self@ == old(self)@ + bytes@.subrange(0, i as int),
            decreases bytes@.len() - i,
        {
            self.pending.push(bytes[i]);
            i = i + 1;
            assert(self@ =~= old(self)@ + bytes@.subrange(0, i as int));
        }
        assert(bytes@.subrange(0, i as int) =~= bytes@);
    }

    /// Whether no bytes are pending.
    pub fn is_empty(&self) -> (r: bool)
        ensures
            r == (self@.len() == 0),
    {
        self.pending.len() == 0
    }

    /// Takes the next whole frame's payload off the pending bytes. A header
    /// that declares more than `MAX_IPC_MSG_SIZE` is refused, and dropped,
    /// before any of its payload is read.
    pub fn next_frame(&mut self) -> (r: Result<Option<Vec<u8>>, FrameError>)
        ensures
            step_view(r) == frame_result(old(self)@),
            final(self)@ == frame_rest(old(self)@),
    {
        let total = self.pending.len();
        if total < 4 {
            return Ok(None);
        }
        let n: u32 = self.pending[0] as u32 + 256 * (self.pending[1] as u32) + 65536 * (
        self.pending[2] as u32) + 16777216 * (self.pending[3] as u32);
        assert(n == le_value(self@));
        let len = n as usize;
        if len > MAX_IPC_MSG_SIZE {
            let rest = copy_range(&self.pending, 4, total);
            self.pending = rest;
            return Err(FrameError::TooLarge { len: n });
        }
        if total - 4 < len {
            return Ok(None);
        }
        let payload = copy_range(&self.pending, 4, 4 + len);
        let rest = copy_range(&self.pending, 4 + len, total);
        self.pending = rest;
        Ok(Some(payload))
    }
}

/// Framing round-trips: a payload within the limit, framed and followed by
/// any further bytes, decodes to itself and leaves those bytes pending.
pub proof fn lemma_frame_round_trip(payload: Seq<u8>, rest: Seq<u8>)
    requires
        payload.len() <= MAX_IPC_MSG_SIZE,
    ensures
        frame_result(frame_of(payload) + rest) == Ok::<Option<Seq<u8>>, FrameError>(
            Some(payload),
        ),
        frame_rest(frame_of(payload) + rest) == rest,
{
    let n = payload.len() as u32;
    let s = frame_of(payload) + rest;
    lemma_le_round_trip(n);
    assert(s.subrange(0, 4) =~= le_bytes(n));
    assert(le_value(s) == le_value(le_bytes(n)));
    assert(s.subrange(4, 4 + n as int) =~= payload);
    assert(s.subrange(4 + n as int, s.len() as int) =~= rest);
}

/// A header declaring more than the limit is refused whatever follows it, so
/// no payload byte is needed, and none is kept, to refuse it.
pub proof fn lemma_oversized_refused(n: u32, rest: Seq<u8>)
    requires
        n as int > MAX_IPC_MSG_SIZE as int,
    ensures
        frame_result(le_bytes(n) + rest) == Err::<Option<Seq<u8>>, FrameError>(
            FrameError::TooLarge { len: n },
        ),
        frame_rest(le_bytes(n) + rest) == rest,
{
    let s = le_bytes(n) + rest;
    lemma_le_round_trip(n);
    assert(s.subrange(0, 4) =~= le_bytes(n));
    assert(le_value(s) == le_value(le_bytes(n)));
    assert(s.subrange(4, s.len() as int) =~= rest);
}

/// A stream that carries exactly one frame and then closes yields that
/// payload, then nothing: the pending bytes are used up.
pub proof fn lemma_one_frame_then_end(payload: Seq<u8>)
    requires
        payload.len() <= MAX_IPC_MSG_SIZE,
    ensures
        frame_result(frame_of(payload)) == Ok::<Option<Seq<u8>>, FrameError>(Some(payload)),
        frame_rest(frame_of(payload)) == Seq::<u8>::empty(),
        frame_result(frame_rest(frame_of(payload))) == Ok::<Option<Seq<u8>>, FrameError>(None),
{
    lemma_frame_round_trip(payload, Seq::<u8>::empty());
    assert(frame_of(payload) + Seq::<u8>::empty() =~= frame_of(payload));
}

} // verus!
