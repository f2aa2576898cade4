//! Byte-level building blocks shared by every sensor grammar: four-byte
//! words in either byte order, the bytes still waiting on a connection, and
//! the error taxonomy of the decoders.

use vstd::prelude::*;

verus! {

/// Why a connection's decoding stopped.
#[derive(Clone, Copy, Debug, PartialEq, Eq, Structural)]
pub enum WireError {
    /// The stream ended inside a length prefix or a payload.
    Framing,
    /// The peer closed the stream between two frames.
    Closed,
    /// A complete payload is not a valid image or scan.
    Codec,
    /// The socket itself failed.
    Io,
    /// Nobody consumes the decoded frames any more.
    Disconnected,
}

/// The little-endian word made of `b[at..at + 4]`.
pub open spec fn le_word(b: Seq<u8>, at: int) -> u32 {
    (b[at] as int + 256 * b[at + 1] as int + 65536 * b[at + 2] as int + 16777216 * b[at + 3] as int) as u32
}

/// The big-endian word made of `b[at..at + 4]`.
pub open spec fn be_word(b: Seq<u8>, at: int) -> u32 {
    (b[at + 3] as int + 256 * b[at + 2] as int + 65536 * b[at + 1] as int + 16777216 * b[at] as int) as u32
}

/// The four bytes of `v`, least significant first.
pub open spec fn le_bytes(v: u32) -> Seq<u8> {
    seq![
        (v % 256) as u8,
        (v / 256 % 256) as u8,
        (v / 65536 % 256) as u8,
        (v / 16777216) as u8,
    ]
}

/// The four bytes of `v`, most significant first.
pub open spec fn be_bytes(v: u32) -> Seq<u8> {
    seq![
        (v / 16777216) as u8,
        (v / 65536 % 256) as u8,
        (v / 256 % 256) as u8,
        (v % 256) as u8,
    ]
}

/// Reads the little-endian word at `at`.
pub fn read_le_word(b: &[u8], at: usize) -> (r: u32)
    requires
        at + 4 <= b@.len(),
    ensures
        r == le_word(b@, at as int),
{
    let len = b.len();
    assert(at + 3 < len);
    b[at] as u32 + 256 * (b[at + 1] as u32) + 65536 * (b[at + 2] as u32) + 16777216 * (b[at + 3] as u32)
}

/// Reads the big-endian word at `at`.
pub fn read_be_word(b: &[u8], at: usize) -> (r: u32)
    requires
        at + 4 <= b@.len(),
    ensures
        r == be_word(b@, at as int),
{
    let len = b.len();
    assert(at + 3 < len);
    b[at + 3] as u32 + 256 * (b[at + 2] as u32) + 65536 * (b[at + 1] as u32) + 16777216 * (b[at] as u32)
}

/// Appends the little-endian bytes of `v` to `out`.
pub fn push_le_word(out: &mut Vec<u8>, v: u32)
    ensures
        final(out)@ == old(out)@ + le_bytes(v),
{
    out.push((v % 256) as u8);
    out.push((v / 256 % 256) as u8);
    out.push((v / 65536 % 256) as u8);
    out.push((v / 16777216) as u8);
    proof {
        assert(final(out)@ =~= old(out)@ + le_bytes(v));
    }
}

/// Writing a word and reading it back gives the word, in both byte orders.
pub proof fn lemma_word_round_trip(v: u32)
    ensures
        le_word(le_bytes(v), 0) == v,
        be_word(be_bytes(v), 0) == v,
        le_bytes(v).len() == 4,
        be_bytes(v).len() == 4,
{
    let x = v as int;
    assert(x == 256 * (x / 256) + x % 256) by (nonlinear_arith);
    assert(x / 256 == 256 * (x / 256 / 256) + x / 256 % 256) by (nonlinear_arith);
    assert(x / 256 / 256 == x / 65536) by (nonlinear_arith);
    assert(x / 65536 == 256 * (x / 65536 / 256) + x / 65536 % 256) by (nonlinear_arith);
    assert(x / 65536 / 256 == x / 16777216) by (nonlinear_arith);
    assert(x / 16777216 < 256) by (nonlinear_arith)
        requires 0 <= x < 0x1_0000_0000;
}

/// Where the first length-prefixed frame of `b` ends, once all of it has
/// arrived: four bytes of little-endian length, then that many bytes.
pub open spec fn prefixed_frame_end(b: Seq<u8>) -> Option<int> {
    if b.len() >= 4 && b.len() >= 4 + le_word(b, 0) {
        Some(4 + le_word(b, 0))
    } else {
        None
    }
}

/// Frames `payload` for the wire: its length as a little-endian `u32`, then
/// the payload itself. A payload too long for the prefix gives `None`.
pub fn frame_message(payload: &[u8]) -> (r: Option<Vec<u8>>)
    ensures
        payload@.len() <= u32::MAX ==> r is Some && r->Some_0@ == le_bytes(payload@.len() as u32) + payload@,
        payload@.len() > u32::MAX ==> r is None,
{
    let n = payload.len();
    if n as u64 > u32::MAX as u64 {
        return None;
    }
    let mut out: Vec<u8> = Vec::new();
    push_le_word(&mut out, n as u32);
    let mut i: usize = 0;
    while i < n
        invariant
            n == payload@.len(),
            i <= n,
            out@ == le_bytes(n as u32) + payload@.subrange(0, i as int),
        decreases n - i,
    {
        out.push(payload[i]);
        i = i + 1;
        proof {
            assert(payload@.subrange(0, i as int) =~= payload@.subrange(0, i - 1) + seq![payload@[i - 1]]);
        }
    }
    proof {
        assert(payload@.subrange(0, n as int) =~= payload@);
    }
    Some(out)
}

/// A framed payload is found again by the reader: the frame ends right after
/// the payload, and the bytes between prefix and end are the payload, whatever
/// follows on the stream.
pub proof fn lemma_frame_round_trip(payload: Seq<u8>, rest: Seq<u8>)
    requires
        payload.len() <= u32::MAX,
    ensures
        prefixed_frame_end(le_bytes(payload.len() as u32) + payload + rest) == Some(4 + payload.len() as int),
        (le_bytes(payload.len() as u32) + payload + rest).subrange(4, 4 + payload.len() as int) == payload,
{
    let n = payload.len() as u32;
    let b = le_bytes(n) + payload + rest;
    lemma_word_round_trip(n);
    assert(b[0] == le_bytes(n)[0] && b[1] == le_bytes(n)[1] && b[2] == le_bytes(n)[2] && b[3] == le_bytes(n)[3]);
    assert(le_word(b, 0) == le_word(le_bytes(n), 0));
    assert(b.subrange(4, 4 + payload.len() as int) =~= payload);
}

/// The bytes received on one connection that no frame has consumed yet.
pub struct StreamBuffer {
    bytes: Vec<u8>,
}

impl View for StreamBuffer {
    type V = Seq<u8>;

    closed spec fn view(&self) -> Seq<u8> {
        self.bytes@
    }
}

impl StreamBuffer {
    /// A buffer with nothing received yet.
    pub fn new() -> (r: StreamBuffer)
        ensures
            r@ == Seq::<u8>::empty(),
    {
        StreamBuffer { bytes: Vec::new() }
    }

    /// Appends bytes read from the connection.
    pub fn receive(&mut self, chunk: &[u8])
        ensures
            final(self)@ == old(self)@ + chunk@,
    {
        let mut i: usize = 0;
        while i < chunk.len()
            invariant
                i <= chunk@.len(),
                self@ == old(self)@ + chunk@.subrange(0, i as int),
            decreases chunk@.len() - i,
        {
            self.bytes.push(chunk[i]);
            i = i + 1;
            proof {
                assert(chunk@.subrange(0, i as int) =~= chunk@.subrange(0, i - 1) + seq![chunk@[i - 1]]);
            }
        }
        proof {
            assert(chunk@.subrange(0, i as int) =~= chunk@);
        }
    }

    /// The bytes waiting, in the order they arrived.
    pub fn as_slice(&self) -> (r: &[u8])
        ensures
            r@ == self@,
    {
        self.bytes.as_slice()
    }

    /// How many bytes are waiting.
    pub fn len(&self) -> (r: usize)
        ensures
            r == self@.len(),
    {
        self.bytes.len()
    }

    /// Removes the first `n` bytes, which a decoded frame has used.
    pub fn consume(&mut self, n: usize)
        requires
            n <= old(self)@.len(),
        ensures
            final(self)@ == old(self)@.subrange(n as int, old(self)@.len() as int),
    {
        let rest = self.bytes.split_off(n);
        self.bytes = rest;
    }

    /// The error that ends a connection once the peer has closed it: the
    /// decode loop has no other way out. `Closed` when it closed between
    /// frames, `Framing` when bytes of an unfinished frame remain.
    pub fn finish(&self) -> (r: WireError)
        ensures
            r == (if self@.len() == 0 { WireError::Closed } else { WireError::Framing }),
    {
        if self.bytes.len() == 0 {
            WireError::Closed
        } else {
            WireError::Framing
        }
    }
}

} // verus!
