//! The LIDAR's two wire grammars. The fixed grammar is 360 big-endian
//! IEEE-754 distances, one per whole degree; the variable grammar is a
//! little-endian `u32` count followed by that many little-endian
//! (angle in radians, distance) pairs. Floats travel as their bit patterns.

use vstd::prelude::*;
use crate::wire::{be_bytes, be_word, le_bytes, le_word, lemma_word_round_trip, read_be_word, read_le_word, StreamBuffer};

verus! {

/// Samples in one scan of the fixed grammar.
pub const FIXED_SCAN_SAMPLES: usize = 360;

/// Bytes in one scan of the fixed grammar.
pub const FIXED_SCAN_BYTES: usize = 1440;

/// Which grammar a LIDAR connection speaks.
#[derive(Clone, Copy, Debug, PartialEq, Eq, Structural)]
pub enum LidarGrammar {
    Fixed,
    Variable,
}

/// The angle of a sample: the whole degree given by its place in a fixed
/// scan, or the bits of an `f32` in radians from a variable scan.
#[derive(Clone, Copy, Debug, PartialEq, Eq, Structural)]
pub enum ScanAngle {
    Degree(u32),
    Radians(u32),
}

/// One sample: its angle and the bits of its `f32` distance in meters.
#[derive(Clone, Copy, Debug, PartialEq, Eq, Structural)]
pub struct LidarSample {
    pub angle: ScanAngle,
    pub distance: u32,
}

/// One complete scan, samples in the order they were sent.
#[derive(Debug)]
pub struct LidarData {
    pub samples: Vec<LidarSample>,
}

/// Where the first scan of `b` ends, once all of it has arrived.
pub open spec fn scan_frame_end(grammar: LidarGrammar, b: Seq<u8>) -> Option<int> {
    match grammar {
        LidarGrammar::Fixed => if b.len() >= 1440 {
            Some(1440)
        } else {
            None
        },
        LidarGrammar::Variable => if b.len() >= 4 && b.len() >= 4 + 8 * le_word(b, 0) {
            Some(4 + 8 * le_word(b, 0))
        } else {
            None
        },
    }
}

/// The `i`-th sample of a fixed scan.
pub open spec fn fixed_sample(b: Seq<u8>, i: int) -> LidarSample {
    LidarSample { angle: ScanAngle::Degree(i as u32), distance: be_word(b, 4 * i) }
}

/// The `i`-th sample of a variable scan.
pub open spec fn variable_sample(b: Seq<u8>, i: int) -> LidarSample {
    LidarSample { angle: ScanAngle::Radians(le_word(b, 4 + 8 * i)), distance: le_word(b, 8 + 8 * i) }
}

/// The samples of the scan at the start of `b`.
pub open spec fn scan_samples(grammar: LidarGrammar, b: Seq<u8>) -> Seq<LidarSample> {
    match grammar {
        LidarGrammar::Fixed => Seq::new(360, |i: int| fixed_sample(b, i)),
        LidarGrammar::Variable => Seq::new(le_word(b, 0) as nat, |i: int| variable_sample(b, i)),
    }
}

/// One decoding step on a LIDAR connection whose waiting bytes go from
/// `before` to `after`: with no complete scan yet, nothing is consumed and the
/// result is `None`; otherwise the scan's bytes are consumed and the result is
/// its samples.
pub open spec fn scan_step(grammar: LidarGrammar, before: Seq<u8>, after: Seq<u8>, r: Option<LidarData>) -> bool {
    match scan_frame_end(grammar, before) {
        None => r is None && after == before,
        Some(end) => {
            &&& after == before.subrange(end, before.len() as int)
            &&& r is Some
            &&& r->Some_0.samples@ == scan_samples(grammar, before)
        },
    }
}

/// The LIDAR side of one connection.
pub struct Lidar {
    grammar: LidarGrammar,
}

impl Lidar {
    pub fn new(grammar: LidarGrammar) -> (r: Lidar)
        ensures
            r.grammar() == grammar,
    {
        Lidar { grammar }
    }

    pub closed spec fn grammar(&self) -> LidarGrammar {
        self.grammar
    }

    /// Takes the next complete scan off `buf`, or leaves `buf` as it is and
    /// returns `None` while the scan is incomplete.
    pub fn handle_lidar_stream(&self, buf: &mut StreamBuffer) -> (r: Option<LidarData>)
        ensures
            scan_step(self.grammar(), old(buf)@, final(buf)@, r),
    {
        match self.grammar {
            LidarGrammar::Fixed => next_fixed_scan(buf),
            LidarGrammar::Variable => next_variable_scan(buf),
        }
    }
}

/// Takes the next fixed-grammar scan off `buf`.
pub fn next_fixed_scan(buf: &mut StreamBuffer) -> (r: Option<LidarData>)
    ensures
        scan_step(LidarGrammar::Fixed, old(buf)@, final(buf)@, r),
{
    let b = buf.as_slice();
    if b.len() < FIXED_SCAN_BYTES {
        return None;
    }
    let mut samples: Vec<LidarSample> = Vec::new();
    let mut i: usize = 0;
    while i < FIXED_SCAN_SAMPLES
        invariant
            i <= 360,
            b@.len() >= 1440,
            samples@ =~= Seq::new(i as nat, |j: int| fixed_sample(b@, j)),
        decreases 360 - i,
    {
        let distance = read_be_word(b, 4 * i);
        samples.push(LidarSample { angle: ScanAngle::Degree(i as u32), distance });
        i = i + 1;
    }
    buf.consume(FIXED_SCAN_BYTES);
    Some(LidarData { samples })
}

/// Takes the next variable-grammar scan off `buf`.
pub fn next_variable_scan(buf: &mut StreamBuffer) -> (r: Option<LidarData>)
    ensures
        scan_step(LidarGrammar::Variable, old(buf)@, final(buf)@, r),
{
    let b = buf.as_slice();
    if b.len() < 4 {
        return None;
    }
    let count = read_le_word(b, 0);
    let len = b.len();
    if ((len - 4) as u64) < 8 * (count as u64) {
        return None;
    }
    let mut samples: Vec<LidarSample> = Vec::new();
    let mut i: usize = 0;
    while i < count as usize
        invariant
            i <= count,
            count == le_word(b@, 0),
            len == b@.len(),
            4 + 8 * count <= len,
            samples@ =~= Seq::new(i as nat, |j: int| variable_sample(b@, j)),
        decreases count - i,
    {
        let at = 4 + 8 * i;
        let angle = read_le_word(b, at);
        let distance = read_le_word(b, at + 4);
        samples.push(LidarSample { angle: ScanAngle::Radians(angle), distance });
        i = i + 1;
    }
    buf.consume(4 + 8 * count as usize);
    Some(LidarData { samples })
}

/// The bytes a sender writes for `pairs` after the count of a variable
/// scan: each angle, then its distance, little-endian.
pub open spec fn pair_bytes(pairs: Seq<(u32, u32)>) -> Seq<u8>
    decreases pairs.len(),
{
    if pairs.len() == 0 {
        Seq::empty()
    } else {
        pair_bytes(pairs.drop_last()) + le_bytes(pairs.last().0) + le_bytes(pairs.last().1)
    }
}

/// The bytes of a whole variable scan of `pairs`.
pub open spec fn variable_scan_bytes(pairs: Seq<(u32, u32)>) -> Seq<u8> {
    le_bytes(pairs.len() as u32) + pair_bytes(pairs)
}

/// The bytes of a whole fixed scan of `distances`, big-endian.
pub open spec fn fixed_scan_bytes(distances: Seq<u32>) -> Seq<u8>
    decreases distances.len(),
{
    if distances.len() == 0 {
        Seq::empty()
    } else {
        fixed_scan_bytes(distances.drop_last()) + be_bytes(distances.last())
    }
}

/// A word read inside a prefix is unaffected by what follows the prefix.
proof fn lemma_words_of_prefix(s: Seq<u8>, t: Seq<u8>, at: int)
    requires
        0 <= at,
        at + 4 <= s.len(),
    ensures
        le_word(s + t, at) == le_word(s, at),
        be_word(s + t, at) == be_word(s, at),
{
    assert((s + t)[at] == s[at]);
    assert((s + t)[at + 1] == s[at + 1]);
    assert((s + t)[at + 2] == s[at + 2]);
    assert((s + t)[at + 3] == s[at + 3]);
}

/// A word read after a prefix is the word read at the same place without it.
proof fn lemma_words_after_prefix(s: Seq<u8>, t: Seq<u8>, at: int)
    requires
        0 <= at,
        at + 4 <= t.len(),
    ensures
        le_word(s + t, s.len() + at) == le_word(t, at),
        be_word(s + t, s.len() + at) == be_word(t, at),
{
    assert((s + t)[s.len() + at] == t[at]);
    assert((s + t)[s.len() + at + 1] == t[at + 1]);
    assert((s + t)[s.len() + at + 2] == t[at + 2]);
    assert((s + t)[s.len() + at + 3] == t[at + 3]);
}

proof fn lemma_pair_bytes(pairs: Seq<(u32, u32)>)
    ensures
        pair_bytes(pairs).len() == 8 * pairs.len(),
        forall|i: int| 0 <= i < pairs.len() ==> {
            &&& #[trigger] le_word(pair_bytes(pairs), 8 * i) == pairs[i].0
            &&& le_word(pair_bytes(pairs), 8 * i + 4) == pairs[i].1
        },
    decreases pairs.len(),
{
    if pairs.len() > 0 {
        let init = pairs.drop_last();
        let (a, d) = pairs.last();
        lemma_pair_bytes(init);
        lemma_word_round_trip(a);
        lemma_word_round_trip(d);
        let p = pair_bytes(init);
        assert(pair_bytes(pairs) == p + (le_bytes(a) + le_bytes(d))) by {
            assert(p + le_bytes(a) + le_bytes(d) =~= p + (le_bytes(a) + le_bytes(d)));
        }
        assert forall|i: int| 0 <= i < pairs.len() implies {
            &&& #[trigger] le_word(pair_bytes(pairs), 8 * i) == pairs[i].0
            &&& le_word(pair_bytes(pairs), 8 * i + 4) == pairs[i].1
        } by {
            if i < init.len() {
                assert(le_word(p, 8 * i) == init[i].0);
                lemma_words_of_prefix(p, le_bytes(a) + le_bytes(d), 8 * i);
                lemma_words_of_prefix(p, le_bytes(a) + le_bytes(d), 8 * i + 4);
            } else {
                lemma_words_after_prefix(p, le_bytes(a) + le_bytes(d), 0);
                lemma_words_of_prefix(le_bytes(a), le_bytes(d), 0);
                lemma_words_after_prefix(p, le_bytes(a) + le_bytes(d), 4);
                lemma_words_after_prefix(le_bytes(a), le_bytes(d), 0);
            }
        }
    }
}

proof fn lemma_fixed_scan_bytes(distances: Seq<u32>)
    ensures
        fixed_scan_bytes(distances).len() == 4 * distances.len(),
        forall|i: int| 0 <= i < distances.len() ==> #[trigger] be_word(fixed_scan_bytes(distances), 4 * i) == distances[i],
    decreases distances.len(),
{
    if distances.len() > 0 {
        let init = distances.drop_last();
        let p = fixed_scan_bytes(init);
        lemma_fixed_scan_bytes(init);
        lemma_word_round_trip(distances.last());
        assert forall|i: int| 0 <= i < distances.len() implies #[trigger] be_word(fixed_scan_bytes(distances), 4 * i) == distances[i] by {
            if i < init.len() {
                assert(be_word(p, 4 * i) == init[i]);
                lemma_words_of_prefix(p, be_bytes(distances.last()), 4 * i);
            } else {
                lemma_words_after_prefix(p, be_bytes(distances.last()), 0);
            }
        }
    }
}

/// A variable scan decodes to exactly the pairs that were written, however
/// many there are and whatever follows them on the stream.
pub proof fn lemma_variable_scan_round_trip(pairs: Seq<(u32, u32)>, rest: Seq<u8>)
    requires
        pairs.len() <= u32::MAX,
    ensures
        scan_frame_end(LidarGrammar::Variable, variable_scan_bytes(pairs) + rest) == Some((4 + 8 * pairs.len()) as int),
        scan_samples(LidarGrammar::Variable, variable_scan_bytes(pairs) + rest) == Seq::new(
            pairs.len(),
            |i: int| LidarSample { angle: ScanAngle::Radians(pairs[i].0), distance: pairs[i].1 },
        ),
{
    let n = pairs.len() as u32;
    let p = pair_bytes(pairs);
    let b = variable_scan_bytes(pairs) + rest;
    lemma_word_round_trip(n);
    lemma_pair_bytes(pairs);
    assert(b == le_bytes(n) + (p + rest)) by {
        assert(le_bytes(n) + p + rest =~= le_bytes(n) + (p + rest));
    }
    lemma_words_of_prefix(le_bytes(n), p + rest, 0);
    assert(le_word(b, 0) == n);
    assert forall|i: int| 0 <= i < pairs.len() implies #[trigger] variable_sample(b, i) == LidarSample {
        angle: ScanAngle::Radians(pairs[i].0),
        distance: pairs[i].1,
    } by {
        assert(le_word(p, 8 * i) == pairs[i].0);
        lemma_words_of_prefix(p, rest, 8 * i);
        lemma_words_of_prefix(p, rest, 8 * i + 4);
        lemma_words_after_prefix(le_bytes(n), p + rest, 8 * i);
        lemma_words_after_prefix(le_bytes(n), p + rest, 8 * i + 4);
    }
    assert(scan_samples(LidarGrammar::Variable, b) =~= Seq::new(
        pairs.len(),
        |i: int| LidarSample { angle: ScanAngle::Radians(pairs[i].0), distance: pairs[i].1 },
    ));
}

/// A fixed scan decodes to exactly 360 samples, the `i`-th at degree `i`
/// with the `i`-th distance written, whatever follows it on the stream.
pub proof fn lemma_fixed_scan_round_trip(distances: Seq<u32>, rest: Seq<u8>)
    requires
        distances.len() == 360,
    ensures
        scan_frame_end(LidarGrammar::Fixed, fixed_scan_bytes(distances) + rest) == Some(1440int),
        scan_samples(LidarGrammar::Fixed, fixed_scan_bytes(distances) + rest) == Seq::new(
            360,
            |i: int| LidarSample { angle: ScanAngle::Degree(i as u32), distance: distances[i] },
        ),
{
    let p = fixed_scan_bytes(distances);
    lemma_fixed_scan_bytes(distances);
    assert forall|i: int| 0 <= i < 360 implies #[trigger] fixed_sample(p + rest, i) == LidarSample {
        angle: ScanAngle::Degree(i as u32),
        distance: distances[i],
    } by {
        assert(be_word(p, 4 * i) == distances[i]);
        lemma_words_of_prefix(p, rest, 4 * i);
    }
    assert(scan_samples(LidarGrammar::Fixed, p + rest) =~= Seq::new(
        360,
        |i: int| LidarSample { angle: ScanAngle::Degree(i as u32), distance: distances[i] },
    ));
}

/// Every scan of the fixed grammar has 360 samples, in degree order.
pub proof fn lemma_fixed_scan_order(b: Seq<u8>)
    requires
        b.len() >= 1440,
    ensures
        scan_frame_end(LidarGrammar::Fixed, b) == Some(1440int),
        scan_samples(LidarGrammar::Fixed, b).len() == 360,
        forall|i: int| 0 <= i < 360 ==> (#[trigger] scan_samples(LidarGrammar::Fixed, b)[i]).angle == ScanAngle::Degree(i as u32),
{
}

} // verus!
