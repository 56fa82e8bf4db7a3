//! Waveform points in their two shapes: interleaved six-byte records (the
//! cache file) and six columns (the events sent to the front end), with the
//! peak bookkeeping done while points are produced.
use vstd::prelude::*;
use crate::waveform::{decode_point, Point};

verus! {

/// The `i`-th six-byte point of `bytes`.
pub open spec fn point_at(bytes: Seq<u8>, i: int) -> Point {
    (bytes[6 * i], bytes[6 * i + 1], bytes[6 * i + 2], bytes[6 * i + 3], bytes[6 * i + 4], bytes[6 * i + 5])
}

/// The whole points of `bytes`, in order (a trailing partial point is left out).
pub open spec fn points_of(bytes: Seq<u8>) -> Seq<Point> {
    Seq::new(bytes.len() / 6, |i: int| point_at(bytes, i))
}

/// Byte `k` (`k < 6`) of a point.
pub open spec fn component(p: Point, k: int) -> u8 {
    if k == 0 { p.0 } else if k == 1 { p.1 } else if k == 2 { p.2 } else if k == 3 { p.3 } else if k == 4 { p.4 } else { p.5 }
}

/// The points written one after the other, six bytes each.
pub open spec fn interleaved(points: Seq<Point>) -> Seq<u8> {
    Seq::new(6 * points.len(), |j: int| component(points[j / 6], j % 6))
}

pub open spec fn max_u8(a: u8, b: u8) -> u8 {
    if a < b { b } else { a }
}

/// The largest of a point's four peak bytes.
pub open spec fn point_peak(p: Point) -> u8 {
    max_u8(max_u8(max_u8(p.2, p.3), p.4), p.5)
}

/// The largest peak byte among `points`, 0 when there is none.
pub open spec fn peak_of(points: Seq<Point>) -> u8
    decreases points.len(),
{
    if points.len() == 0 { 0 } else { max_u8(peak_of(points.drop_last()), point_peak(points.last())) }
}

/// The largest left peak byte (up or down) among `points`.
pub open spec fn left_peak_of(points: Seq<Point>) -> u8
    decreases points.len(),
{
    if points.len() == 0 { 0 } else { max_u8(max_u8(left_peak_of(points.drop_last()), points.last().2), points.last().3) }
}

/// The largest right peak byte (up or down) among `points`.
pub open spec fn right_peak_of(points: Seq<Point>) -> u8
    decreases points.len(),
{
    if points.len() == 0 { 0 } else { max_u8(max_u8(right_peak_of(points.drop_last()), points.last().4), points.last().5) }
}

/// Points in six columns, as one event carries them, with the point index
/// of the first one and the largest peak byte among them.
#[derive(Debug, Clone)]
pub struct PointBatch {
    pub offset: usize,
    pub left_rms: Vec<u8>,
    pub right_rms: Vec<u8>,
    pub left_up: Vec<u8>,
    pub left_down: Vec<u8>,
    pub right_up: Vec<u8>,
    pub right_down: Vec<u8>,
    pub chunk_max_peak: u8,
}

impl PointBatch {
    /// All six columns have the same length.
    pub open spec fn columns_ok(&self) -> bool {
        let n = self.left_rms@.len();
        &&& self.right_rms@.len() == n
        &&& self.left_up@.len() == n
        &&& self.left_down@.len() == n
        &&& self.right_up@.len() == n
        &&& self.right_down@.len() == n
    }

    /// The points of the batch, in order.
    pub open spec fn points(&self) -> Seq<Point> {
        Seq::new(self.left_rms@.len(), |i: int| (
            self.left_rms@[i], self.right_rms@[i], self.left_up@[i],
            self.left_down@[i], self.right_up@[i], self.right_down@[i],
        ))
    }

    /// A batch of no point.
    pub fn empty(offset: usize) -> (b: PointBatch)
        ensures
            b.columns_ok(),
            b.points() =~= Seq::<Point>::empty(),
            b.offset == offset,
            b.chunk_max_peak == 0,
    {
        PointBatch {
            offset,
            left_rms: Vec::new(),
            right_rms: Vec::new(),
            left_up: Vec::new(),
            left_down: Vec::new(),
            right_up: Vec::new(),
            right_down: Vec::new(),
            chunk_max_peak: 0,
        }
    }

    /// Adds a point at the end and raises the batch peak to it.
    pub fn push(&mut self, p: Point)
        requires
            old(self).columns_ok(),
        ensures
            final(self).columns_ok(),
            final(self).points() == old(self).points().push(p),
            final(self).offset == old(self).offset,
            final(self).chunk_max_peak == max_u8(old(self).chunk_max_peak, point_peak(p)),
    {
        self.left_rms.push(p.0);
        self.right_rms.push(p.1);
        self.left_up.push(p.2);
        self.left_down.push(p.3);
        self.right_up.push(p.4);
        self.right_down.push(p.5);
        let a: u8 = if p.2 < p.3 { p.3 } else { p.2 };
        let b: u8 = if a < p.4 { p.4 } else { a };
        let c: u8 = if b < p.5 { p.5 } else { b };
        if self.chunk_max_peak < c {
            self.chunk_max_peak = c;
        }
        assert(self.points() =~= old(self).points().push(p));
    }

    /// The number of points.
    pub fn len(&self) -> (n: usize)
        requires
            self.columns_ok(),
        ensures
            n == self.points().len(),
    {
        self.left_rms.len()
    }

    /// The points one after the other, six bytes each, as the cache file
    /// stores them.
    pub fn interleave(&self) -> (bytes: Vec<u8>)
        requires
            self.columns_ok(),
        ensures
            bytes@ == interleaved(self.points()),
    {
        let n: usize = self.left_rms.len();
        let mut bytes: Vec<u8> = Vec::new();
        let mut i: usize = 0;
        while i < n
            invariant
                i <= n,
                n == self.points().len(),
                self.columns_ok(),
                bytes@ == interleaved(self.points().subrange(0, i as int)),
            decreases n - i,
        {
            let ghost before = bytes@;
            let p: Point = (self.left_rms[i], self.right_rms[i], self.left_up[i], self.left_down[i], self.right_up[i], self.right_down[i]);
            assert(p == self.points()[i as int]);
            bytes.push(p.0);
            bytes.push(p.1);
            bytes.push(p.2);
            bytes.push(p.3);
            bytes.push(p.4);
            bytes.push(p.5);
            let ghost next = self.points().subrange(0, i as int + 1);
            assert forall|j: int| 0 <= j < 6 * next.len() implies bytes@[j] == component(next[j / 6], j % 6) by {
                if j < 6 * i {
                    assert(next[j / 6] == self.points().subrange(0, i as int)[j / 6]);
                }
            }
            assert(bytes@ =~= interleaved(next));
            i = i + 1;
        }
        assert(self.points().subrange(0, n as int) =~= self.points());
        bytes
    }
}

proof fn lemma_peak_push(s: Seq<Point>, p: Point)
    ensures
        peak_of(s.push(p)) == max_u8(peak_of(s), point_peak(p)),
        left_peak_of(s.push(p)) == max_u8(max_u8(left_peak_of(s), p.2), p.3),
        right_peak_of(s.push(p)) == max_u8(max_u8(right_peak_of(s), p.4), p.5),
{
    assert(s.push(p).drop_last() =~= s);
}

/// The points `from..from + count` of `data` as a batch starting at point
/// `offset`.
pub fn point_batch(data: &[u8], from: usize, count: usize, offset: usize) -> (b: PointBatch)
    requires
        (from + count) * 6 <= data@.len(),
    ensures
        b.columns_ok(),
        b.points() == points_of(data@).subrange(from as int, from + count),
        b.offset == offset,
        b.chunk_max_peak == peak_of(b.points()),
{
    let mut b: PointBatch = PointBatch::empty(offset);
    let len: usize = data.len();
    let mut i: usize = 0;
    while i < count
        invariant
            i <= count,
            len == data@.len(),
            (from + count) * 6 <= data@.len(),
            b.columns_ok(),
            b.offset == offset,
            b.points() == points_of(data@).subrange(from as int, from + i),
            b.chunk_max_peak == peak_of(b.points()),
        decreases count - i,
    {
        assert((from + i) * 6 + 6 <= (from + count) * 6) by (nonlinear_arith)
            requires
                i < count,
        ;
        let at: usize = (from + i) * 6;
        let p: Point = decode_point(&data[at..at + 6]);
        let ghost before = b.points();
        assert(p == points_of(data@)[from + i]);
        b.push(p);
        proof {
            lemma_peak_push(before, p);
        }
        assert(b.points() =~= points_of(data@).subrange(from as int, from + i + 1));
        i = i + 1;
    }
    b
}

/// The largest left and right peak bytes of the points in `data`.
pub fn cached_peaks(data: &[u8]) -> (r: (u8, u8))
    ensures
        r == (left_peak_of(points_of(data@)), right_peak_of(points_of(data@))),
{
    let len: usize = data.len();
    let n: usize = len / 6;
    let mut left: u8 = 0;
    let mut right: u8 = 0;
    let mut i: usize = 0;
    while i < n
        invariant
            i <= n,
            len == data@.len(),
            n == data@.len() / 6,
            left == left_peak_of(points_of(data@).subrange(0, i as int)),
            right == right_peak_of(points_of(data@).subrange(0, i as int)),
        decreases n - i,
    {
        assert(i * 6 + 6 <= data@.len()) by (nonlinear_arith)
            requires
                i < n,
                n == data@.len() / 6,
        ;
        let p: Point = decode_point(&data[i * 6..i * 6 + 6]);
        assert(p == points_of(data@)[i as int]);
        proof {
            lemma_peak_push(points_of(data@).subrange(0, i as int), p);
            assert(points_of(data@).subrange(0, i as int).push(p) =~= points_of(data@).subrange(0, i as int + 1));
        }
        let l1: u8 = if left < p.2 { p.2 } else { left };
        left = if l1 < p.3 { p.3 } else { l1 };
        let r1: u8 = if right < p.4 { p.4 } else { right };
        right = if r1 < p.5 { p.5 } else { r1 };
        i = i + 1;
    }
    assert(points_of(data@).subrange(0, n as int) =~= points_of(data@));
    (left, right)
}

/// The points of consecutive batches, one after the other.
pub open spec fn batches_points(bs: Seq<PointBatch>) -> Seq<Point>
    decreases bs.len(),
{
    if bs.len() == 0 { seq![] } else { batches_points(bs.drop_last()) + bs.last().points() }
}

/// Batches that follow one another: each starts at the point where the one
/// before it ends, the first at `from`.
pub open spec fn contiguous_from(bs: Seq<PointBatch>, from: int) -> bool
    decreases bs.len(),
{
    if bs.len() == 0 {
        true
    } else {
        contiguous_from(bs.drop_last(), from) && bs.last().offset == from + batches_points(bs.drop_last()).len()
    }
}

proof fn lemma_batches_points_concat(a: Seq<PointBatch>, b: Seq<PointBatch>)
    ensures
        batches_points(a + b) == batches_points(a) + batches_points(b),
    decreases b.len(),
{
    if b.len() == 0 {
        assert(a + b =~= a);
    } else {
        assert((a + b).drop_last() =~= a + b.drop_last());
        lemma_batches_points_concat(a, b.drop_last());
        assert(batches_points(a + b) =~= batches_points(a) + batches_points(b));
    }
}

proof fn lemma_contiguous_concat(a: Seq<PointBatch>, b: Seq<PointBatch>, from: int)
    requires
        contiguous_from(a, from),
        contiguous_from(b, from + batches_points(a).len()),
    ensures
        contiguous_from(a + b, from),
    decreases b.len(),
{
    if b.len() == 0 {
        assert(a + b =~= a);
    } else {
        assert((a + b).drop_last() =~= a + b.drop_last());
        lemma_contiguous_concat(a, b.drop_last(), from);
        lemma_batches_points_concat(a, b.drop_last());
    }
}

/// A batch that starts where the batches before it end extends them: the
/// decoder's buffer hands out each batch at the offset where its pending
/// points began, which is where the previous batch ended (see
/// `PointBuffer::take_batch`), so its batches follow one another from the
/// point it started at.
pub proof fn lemma_next_batch_continues(taken: Seq<PointBatch>, from: int, b: PointBatch)
    requires
        contiguous_from(taken, from),
        b.offset == from + batches_points(taken).len(),
    ensures
        contiguous_from(taken.push(b), from),
        batches_points(taken.push(b)) == batches_points(taken) + b.points(),
{
    assert(taken.push(b).drop_last() =~= taken);
}

/// The events of a waveform job cover the points from `min(s, r)` on in
/// order, without gap or overlap: the batches replayed from the cache start
/// at the requested point `s` and end at the cache's point count `r` (none
/// when `s >= r`), and the decoder's batches start at `r`; so all of them,
/// replayed first, follow one another from `min(s, r)`.
pub proof fn lemma_replay_then_decode_contiguous(replayed: Seq<PointBatch>, decoded: Seq<PointBatch>, s: int, r: int)
    requires
        contiguous_from(replayed, s),
        s < r ==> s + batches_points(replayed).len() == r,
        s >= r ==> replayed.len() == 0,
        contiguous_from(decoded, r),
    ensures
        contiguous_from(replayed + decoded, if s < r { s } else { r }),
{
    if s < r {
        lemma_contiguous_concat(replayed, decoded, s);
    } else {
        assert(replayed + decoded =~= decoded);
    }
}

/// The cached points from `start_point` on, in batches of at most
/// `points_per_event` points: batch `j` starts at point
/// `start_point + j * points_per_event`; together they hold exactly the
/// cached points `start_point..`. No batch when nothing lies beyond
/// `start_point`.
pub fn replay_batches(prefix: &[u8], start_point: usize, points_per_event: usize) -> (r: Vec<PointBatch>)
    requires
        points_per_event > 0,
    ensures
        ({
            let total = points_of(prefix@).len();
            &&& contiguous_from(r@, start_point as int)
            &&& start_point >= total ==> r@.len() == 0
            &&& start_point < total ==> batches_points(r@) == points_of(prefix@).subrange(start_point as int, total as int)
            &&& start_point < total ==> r@.len() > 0 && r@.last().offset + r@.last().points().len() == total
        }),
        forall|j: int| 0 <= j < r@.len() ==> {
            &&& (#[trigger] r@[j]).columns_ok()
            &&& r@[j].offset == start_point + j * points_per_event
            &&& 0 < r@[j].points().len() <= points_per_event
            &&& r@[j].chunk_max_peak == peak_of(r@[j].points())
        },
{
    let total: usize = prefix.len() / 6;
    let mut out: Vec<PointBatch> = Vec::new();
    if start_point >= total {
        return out;
    }
    let mut offset: usize = start_point;
    assert(points_of(prefix@).subrange(start_point as int, start_point as int) =~= Seq::<Point>::empty());
    assert(0 * points_per_event == 0);
    while offset < total
        invariant
            start_point <= offset <= total,
            total == points_of(prefix@).len(),
            points_per_event > 0,
            offset == start_point + out@.len() * points_per_event || offset == total,
            offset < total ==> offset == start_point + out@.len() * points_per_event,
            batches_points(out@) == points_of(prefix@).subrange(start_point as int, offset as int),
            contiguous_from(out@, start_point as int),
            out@.len() > 0 ==> out@.last().offset + out@.last().points().len() == offset,
            out@.len() == 0 ==> offset == start_point,
            forall|j: int| 0 <= j < out@.len() ==> {
                &&& (#[trigger] out@[j]).columns_ok()
                &&& out@[j].offset == start_point + j * points_per_event
                &&& 0 < out@[j].points().len() <= points_per_event
                &&& out@[j].chunk_max_peak == peak_of(out@[j].points())
            },
        decreases total - offset,
    {
        let count: usize = if total - offset < points_per_event { total - offset } else { points_per_event };
        let b: PointBatch = point_batch(prefix, offset, count, offset);
        let ghost before = out@;
        out.push(b);
        assert(out@.drop_last() =~= before);
        assert(batches_points(before).len() == offset - start_point);
        assert(contiguous_from(out@, start_point as int));
        assert(batches_points(out@) =~= points_of(prefix@).subrange(start_point as int, offset + count));
        proof {
            assert((before.len() + 1) * points_per_event == before.len() * points_per_event + points_per_event) by (nonlinear_arith);
        }
        offset = offset + count;
    }
    out
}

/// Reading back interleaved points gives the points.
pub proof fn lemma_interleave_round_trip(points: Seq<Point>)
    ensures
        points_of(interleaved(points)) == points,
{
    let b = interleaved(points);
    assert(b.len() / 6 == points.len());
    assert forall|i: int| 0 <= i < points.len() implies point_at(b, i) == points[i] by {
        assert((6 * i) / 6 == i && (6 * i + 1) / 6 == i && (6 * i + 2) / 6 == i);
        assert((6 * i + 3) / 6 == i && (6 * i + 4) / 6 == i && (6 * i + 5) / 6 == i);
    }
    assert(points_of(b) =~= points);
}

/// Bytes made of whole points are the interleaving of their points.
pub proof fn lemma_points_round_trip(bytes: Seq<u8>)
    requires
        bytes.len() % 6 == 0,
    ensures
        interleaved(points_of(bytes)) == bytes,
{
    let ps = points_of(bytes);
    assert(6 * ps.len() == bytes.len());
    assert forall|j: int| 0 <= j < bytes.len() implies #[trigger] interleaved(ps)[j] == bytes[j] by {
        let i = j / 6;
        let k = j % 6;
        assert(j == 6 * i + k);
    }
    assert(interleaved(ps) =~= bytes);
}

// ---------------------------------------------------------------- production

/// The points produced so far that were not yet sent, with the largest
/// left and right peaks of the whole waveform and the count of points
/// produced (those read from the cache included).
pub struct PointBuffer {
    pub pending: PointBatch,
    pub max_left_peak: u8,
    pub max_right_peak: u8,
    pub emitted_points: usize,
}

impl PointBuffer {
    /// The pending points are the last ones produced: they start at point
    /// `emitted_points - pending`, and the batch peak is theirs.
    pub open spec fn wf(&self) -> bool {
        &&& self.pending.columns_ok()
        &&& self.pending.offset + self.pending.points().len() == self.emitted_points
        &&& self.pending.chunk_max_peak == peak_of(self.pending.points())
    }

    /// A buffer that continues after `initial_emitted` points whose peaks
    /// were `max_left_peak` and `max_right_peak`.
    pub fn new(initial_emitted: usize, max_left_peak: u8, max_right_peak: u8) -> (b: PointBuffer)
        ensures
            b.wf(),
            b.pending.points().len() == 0,
            b.emitted_points == initial_emitted,
            b.max_left_peak == max_left_peak,
            b.max_right_peak == max_right_peak,
    {
        PointBuffer {
            pending: PointBatch::empty(initial_emitted),
            max_left_peak,
            max_right_peak,
            emitted_points: initial_emitted,
        }
    }

    /// Adds the point of a finished bin.
    pub fn push_point(&mut self, p: Point)
        requires
            old(self).wf(),
            old(self).emitted_points < usize::MAX,
        ensures
            final(self).wf(),
            final(self).pending.points() == old(self).pending.points().push(p),
            final(self).pending.offset == old(self).pending.offset,
            final(self).emitted_points == old(self).emitted_points + 1,
            final(self).max_left_peak == max_u8(max_u8(old(self).max_left_peak, p.2), p.3),
            final(self).max_right_peak == max_u8(max_u8(old(self).max_right_peak, p.4), p.5),
    {
        let ghost before = self.pending.points();
        self.pending.push(p);
        proof {
            lemma_peak_push(before, p);
        }
        let l1: u8 = if self.max_left_peak < p.2 { p.2 } else { self.max_left_peak };
        self.max_left_peak = if l1 < p.3 { p.3 } else { l1 };
        let r1: u8 = if self.max_right_peak < p.4 { p.4 } else { self.max_right_peak };
        self.max_right_peak = if r1 < p.5 { p.5 } else { r1 };
        self.emitted_points = self.emitted_points + 1;
    }

    /// The number of pending points.
    pub fn pending_len(&self) -> (n: usize)
        requires
            self.wf(),
        ensures
            n == self.pending.points().len(),
    {
        self.pending.len()
    }

    /// Hands out the pending points as a batch (none when there is no
    /// pending point); the buffer then holds none, and its batch peak
    /// starts again from 0.
    pub fn take_batch(&mut self) -> (r: Option<PointBatch>)
        requires
            old(self).wf(),
        ensures
            final(self).wf(),
            final(self).pending.points().len() == 0,
            final(self).emitted_points == old(self).emitted_points,
            final(self).pending.offset == old(self).emitted_points,
            final(self).max_left_peak == old(self).max_left_peak,
            final(self).max_right_peak == old(self).max_right_peak,
            old(self).pending.points().len() == 0 ==> r is None,
            r matches Some(b) ==> b.offset == old(self).pending.offset && b.offset + b.points().len()
                == final(self).pending.offset,
            old(self).pending.points().len() > 0 ==> (r matches Some(b) && {
                &&& b.columns_ok()
                &&& b.points() == old(self).pending.points()
                &&& b.offset == old(self).emitted_points - old(self).pending.points().len()
                &&& b.chunk_max_peak == peak_of(b.points())
            }),
    {
        if self.pending.len() == 0 {
            return None;
        }
        let mut b: PointBatch = PointBatch::empty(self.emitted_points);
        std::mem::swap(&mut b, &mut self.pending);
        Some(b)
    }
}

} // verus!
