//! Waveform parameters and the layout of the waveform cache file.
//!
//! A waveform has `TOTAL_WAVEFORM_POINTS` points; each point is six bytes
//! (left RMS, right RMS, left peak up, left peak down, right peak up, right
//! peak down). The cache file is the 8-byte header `WVFM` + version
//! (little-endian `u32`) followed by the points in order.
use vstd::prelude::*;
use crate::text::{decimal, lemma_decimal_digits, lemma_decimal_injective, owned, push_arg, push_decimal, push_str, push_string, strs, to_decimal, with_number};

verus! {

pub const TOTAL_WAVEFORM_POINTS: usize = 1920;
pub const DEFAULT_POINTS_PER_EVENT: usize = 96;
pub const CACHE_VERSION: u32 = 1;
pub const CACHE_HEADER_SIZE: u64 = 8;
pub const POINT_SIZE: u64 = 6;
pub const BYTES_PER_SAMPLE: usize = 2;
pub const BYTES_PER_FRAME: usize = 4;
/// The highest sample rate a waveform is decoded at.
pub const MAX_ALLOWED_RATE: u32 = 12000;

/// An error reported to the front end for a waveform job.
#[derive(Debug, Clone)]
pub struct WaveformErrorEvent {
    pub job_id: String,
    pub track_index: u32,
    pub message: String,
}

/// Points per streamed event: the request's value or 96, kept within
/// 1..=1920.
pub open spec fn points_per_event_for(p: Option<usize>) -> usize {
    let v = match p { Some(v) => v, None => DEFAULT_POINTS_PER_EVENT };
    if v < 1 { 1 } else if v > TOTAL_WAVEFORM_POINTS { TOTAL_WAVEFORM_POINTS } else { v }
}

/// Points per streamed event: the request's value or 96, kept within
/// 1..=1920.
pub fn resolve_points_per_event(points_per_event: Option<usize>) -> (r: usize)
    ensures
        r == points_per_event_for(points_per_event),
        1 <= r <= TOTAL_WAVEFORM_POINTS,
{
    let v: usize = match points_per_event {
        Some(v) => v,
        None => DEFAULT_POINTS_PER_EVENT,
    };
    if v < 1 {
        1
    } else if v > TOTAL_WAVEFORM_POINTS {
        TOTAL_WAVEFORM_POINTS
    } else {
        v
    }
}

/// The number of events that carry all points, `points_per_event` at a
/// time: the least `n` with `n * points_per_event >= 1920`.
pub fn event_count_for(points_per_event: usize) -> (n: usize)
    requires
        0 < points_per_event <= usize::MAX - TOTAL_WAVEFORM_POINTS,
    ensures
        n == (TOTAL_WAVEFORM_POINTS + points_per_event - 1) / points_per_event as int,
        n * points_per_event >= TOTAL_WAVEFORM_POINTS,
        (n - 1) * points_per_event < TOTAL_WAVEFORM_POINTS,
{
    let n: usize = (TOTAL_WAVEFORM_POINTS + points_per_event - 1) / points_per_event;
    proof {
        let p = points_per_event as int;
        let q = (1920 + p - 1) / p;
        let r = (1920 + p - 1) % p;
        assert(1920 + p - 1 == q * p + r && 0 <= r < p) by (nonlinear_arith)
            requires
                p > 0,
                q == (1920 + p - 1) / p,
                r == (1920 + p - 1) % p,
        ;
        assert(q * p >= 1920 && (q - 1) * p < 1920) by (nonlinear_arith)
            requires
                1920 + p - 1 == q * p + r,
                0 <= r < p,
        ;
    }
    n
}

/// The sample rate a waveform is decoded at: the requested rate kept within
/// 1..=12000, else the rate chosen from the duration (`auto_rate`); either
/// lowered to the source's sample rate when that is known and positive.
pub open spec fn target_rate_for(target_rate: Option<u32>, source_rate: Option<u32>, auto_rate: u32) -> u32 {
    let base = match target_rate {
        Some(r) => if r < 1 { 1 } else if r > MAX_ALLOWED_RATE { MAX_ALLOWED_RATE } else { r },
        None => auto_rate,
    };
    match source_rate {
        Some(s) => if s > 0 && s < base { s } else { base },
        None => base,
    }
}

/// The sample rate a waveform is decoded at (see `target_rate_for`). The
/// rate chosen from the duration is computed by the caller.
pub fn resolve_target_rate(target_rate: Option<u32>, audio_tracks_sample_rate: Option<u32>, auto_rate: u32) -> (r: u32)
    ensures
        r == target_rate_for(target_rate, audio_tracks_sample_rate, auto_rate),
{
    let base: u32 = match target_rate {
        Some(r) => if r < 1 { 1 } else if r > MAX_ALLOWED_RATE { MAX_ALLOWED_RATE } else { r },
        None => auto_rate,
    };
    match audio_tracks_sample_rate {
        Some(s) => if s > 0 && s < base { s } else { base },
        None => base,
    }
}

/// The id of a waveform job: `wf-<millis>-<counter>`.
pub open spec fn job_id_of(millis: nat, counter: nat) -> Seq<char> {
    "wf-"@ + decimal(millis) + "-"@ + decimal(counter)
}

/// The id of a waveform job: `wf-<millis>-<counter>`.
pub fn next_job_id(millis: u128, counter: u64) -> (id: String)
    ensures
        id@ == job_id_of(millis as nat, counter as nat),
{
    let mut id: String = owned("wf-");
    push_decimal(&mut id, millis);
    push_str(&mut id, "-");
    push_decimal(&mut id, counter as u128);
    id
}

/// Job ids are distinct: two ids are equal only when both the time and the
/// counter they were made from are equal, so ids taken with different
/// counter values never collide, whatever the clock says.
pub proof fn lemma_job_ids_distinct(m1: nat, c1: nat, m2: nat, c2: nat)
    requires
        job_id_of(m1, c1) == job_id_of(m2, c2),
    ensures
        m1 == m2,
        c1 == c2,
{
    reveal_strlit("wf-");
    reveal_strlit("-");
    lemma_decimal_digits(m1);
    lemma_decimal_digits(m2);
    lemma_decimal_digits(c1);
    lemma_decimal_digits(c2);
    let a = decimal(m1);
    let b = decimal(m2);
    let s1 = a + "-"@ + decimal(c1);
    let s2 = b + "-"@ + decimal(c2);
    assert(s1 == job_id_of(m1, c1).subrange(3, job_id_of(m1, c1).len() as int));
    assert(s2 == job_id_of(m2, c2).subrange(3, job_id_of(m2, c2).len() as int));
    assert(s1 == s2);
    if a.len() < b.len() {
        assert(s1[a.len() as int] == '-');
        assert(s2[a.len() as int] == b[a.len() as int]);
        assert(false);
    } else if b.len() < a.len() {
        assert(s2[b.len() as int] == '-');
        assert(s1[b.len() as int] == a[b.len() as int]);
        assert(false);
    }
    assert(a == s1.subrange(0, a.len() as int));
    assert(b == s2.subrange(0, b.len() as int));
    lemma_decimal_injective(m1, m2);
    assert(decimal(c1) == s1.subrange(a.len() + 1int, s1.len() as int));
    assert(decimal(c2) == s2.subrange(b.len() + 1int, s2.len() as int));
    lemma_decimal_injective(c1, c2);
}

/// The counter that job ids are taken from, one value per id; it starts at
/// 1 and wraps after `u64::MAX`.
pub struct JobIds {
    next: u64,
}

/// The counter value after `c`.
pub open spec fn counter_after(c: u64) -> u64 {
    if c == u64::MAX { 0 } else { (c + 1) as u64 }
}

impl JobIds {
    /// The counter value the next id takes.
    pub closed spec fn next_counter(&self) -> u64 {
        self.next
    }

    /// A counter at 1.
    pub fn new() -> (ids: JobIds)
        ensures
            ids.next_counter() == 1,
    {
        JobIds { next: 1 }
    }

    /// Takes the id of a new job started at `millis` ms after the Unix
    /// epoch, advancing the counter.
    pub fn take(&mut self, millis: u128) -> (id: String)
        ensures
            id@ == job_id_of(millis as nat, old(self).next_counter() as nat),
            final(self).next_counter() == counter_after(old(self).next_counter()),
    {
        let c: u64 = self.next;
        self.next = if c == u64::MAX { 0 } else { c + 1 };
        next_job_id(millis, c)
    }
}

/// The counter value `k` takes after `c`.
pub open spec fn counter_after_n(c: u64, k: nat) -> u64
    decreases k,
{
    if k == 0 { c } else { counter_after(counter_after_n(c, (k - 1) as nat)) }
}

proof fn lemma_counter_after_n(c: u64, k: nat)
    ensures
        counter_after_n(c, k) == (c + k) % 0x1_0000_0000_0000_0000,
    decreases k,
{
    if k > 0 {
        lemma_counter_after_n(c, (k - 1) as nat);
    }
}

/// Ids taken from one counter differ: the id taken `k` takes after another
/// (fewer than `2^64` takes later) never equals it, whatever the two times.
pub proof fn lemma_taken_ids_differ(m1: nat, m2: nat, c: u64, k: nat)
    requires
        0 < k < 0x1_0000_0000_0000_0000,
    ensures
        job_id_of(m1, c as nat) != job_id_of(m2, counter_after_n(c, k) as nat),
{
    lemma_counter_after_n(c, k);
    assert(counter_after_n(c, k) != c);
    if job_id_of(m1, c as nat) == job_id_of(m2, counter_after_n(c, k) as nat) {
        lemma_job_ids_distinct(m1, c as nat, m2, counter_after_n(c, k) as nat);
    }
}

/// The index of the event that starts at point `offset`.
pub fn chunk_index_for(offset: usize, points_per_event: usize) -> (i: usize)
    requires
        points_per_event > 0,
    ensures
        i == offset / points_per_event,
{
    offset / points_per_event
}

// ---------------------------------------------------------------- cache file

/// A point: left RMS, right RMS, left up, left down, right up, right down.
pub type Point = (u8, u8, u8, u8, u8, u8);

/// The six bytes of a point, in file order.
pub fn decode_point(chunk: &[u8]) -> (p: Point)
    requires
        chunk@.len() >= 6,
    ensures
        p == (chunk@[0], chunk@[1], chunk@[2], chunk@[3], chunk@[4], chunk@[5]),
{
    (chunk[0], chunk[1], chunk[2], chunk[3], chunk[4], chunk[5])
}

/// The cache header: `WVFM` and the version, little-endian.
pub open spec fn header_bytes() -> Seq<u8> {
    seq![0x57u8, 0x56u8, 0x46u8, 0x4du8, 1u8, 0u8, 0u8, 0u8]
}

/// The header of a cache file.
pub fn cache_header() -> (h: Vec<u8>)
    ensures
        h@ == header_bytes(),
{
    let h: Vec<u8> = vec![0x57u8, 0x56u8, 0x46u8, 0x4du8, 1u8, 0u8, 0u8, 0u8];
    assert(h@ =~= header_bytes());
    h
}

/// The header read from a cache file is `WVFM` followed by version 1.
pub open spec fn header_ok(h: Seq<u8>) -> bool {
    &&& h.len() == 8
    &&& h[0] == 0x57 && h[1] == 0x56 && h[2] == 0x46 && h[3] == 0x4d
    &&& h[4] as int + h[5] as int * 0x100 + h[6] as int * 0x1_0000 + h[7] as int * 0x100_0000
        == CACHE_VERSION as int
}

/// The number of points a cache file holds, or `None` when the file is to
/// be discarded: the header could not be read (`header` is `None`), is not
/// `WVFM`, names another version, or the file is shorter than the header.
/// Points beyond 1920 and a trailing partial point are not counted.
pub open spec fn cached_points(header: Option<Seq<u8>>, file_size: u64) -> Option<usize> {
    match header {
        None => None,
        Some(h) => if !header_ok(h) || file_size < CACHE_HEADER_SIZE {
            None
        } else {
            let data = file_size - CACHE_HEADER_SIZE;
            let capped = if data < TOTAL_WAVEFORM_POINTS * POINT_SIZE { data } else { TOTAL_WAVEFORM_POINTS * POINT_SIZE };
            Some((capped / POINT_SIZE as int) as usize)
        },
    }
}

/// How many points an opened cache file holds (see `cached_points`); `None`
/// tells the caller to delete the file and count no point.
pub fn cached_point_count(header: Option<&[u8]>, file_size: u64) -> (r: Option<usize>)
    requires
        header matches Some(h) ==> h@.len() == 8,
    ensures
        r == cached_points(match header { Some(h) => Some(h@), None => None }, file_size),
        r matches Some(n) ==> n <= TOTAL_WAVEFORM_POINTS,
{
    let h: &[u8] = match header {
        Some(h) => h,
        None => return None,
    };
    if h[0] != 0x57 || h[1] != 0x56 || h[2] != 0x46 || h[3] != 0x4d {
        return None;
    }
    let version: u32 = h[4] as u32 + h[5] as u32 * 0x100 + h[6] as u32 * 0x1_0000 + h[7] as u32 * 0x100_0000;
    if version != CACHE_VERSION {
        return None;
    }
    if file_size < CACHE_HEADER_SIZE {
        return None;
    }
    let data: u64 = file_size - CACHE_HEADER_SIZE;
    let max_data: u64 = TOTAL_WAVEFORM_POINTS as u64 * POINT_SIZE;
    let capped: u64 = if data < max_data { data } else { max_data };
    Some((capped / POINT_SIZE) as usize)
}

/// Where the points `start..start + count` lie in the cache file: the byte
/// offset and the byte length.
pub fn raw_points_span(start: usize, count: usize) -> (r: (u64, usize))
    requires
        CACHE_HEADER_SIZE + start * POINT_SIZE <= u64::MAX,
        count * POINT_SIZE <= usize::MAX,
    ensures
        r.0 == CACHE_HEADER_SIZE + start * POINT_SIZE,
        r.1 == count * POINT_SIZE,
{
    (CACHE_HEADER_SIZE + start as u64 * POINT_SIZE, count * 6)
}

/// The number of whole points in `len` bytes.
pub fn points_in(len: usize) -> (n: usize)
    ensures
        n == len as int / POINT_SIZE as int,
{
    len / 6
}

/// A staged cache file replaces the published one only when it holds more
/// points.
pub fn should_publish(points_written: usize, existing: usize) -> (b: bool)
    ensures
        b == (points_written > existing),
{
    points_written > existing
}

/// What publishing a staged cache file does.
#[derive(Debug, Clone, Copy, PartialEq, Eq, Structural)]
pub enum PublishAction {
    /// Already published: nothing more happens.
    Nothing,
    /// Move the staged file over the published one.
    Replace,
    /// Delete the staged file; the published one stays.
    Discard,
}

/// The bookkeeping of a staged cache file: how many points it holds and
/// whether it was published.
pub struct StagedCache {
    points_written: usize,
    published: bool,
}

impl StagedCache {
    /// The points the staged file holds.
    pub closed spec fn points(&self) -> nat {
        self.points_written as nat
    }

    /// Whether the staged file was published (or discarded).
    pub closed spec fn is_done(&self) -> bool {
        self.published
    }

    /// A staged file that starts with `prefix_points` points.
    pub fn new(prefix_points: usize) -> (c: StagedCache)
        ensures
            c.points() == prefix_points,
            !c.is_done(),
    {
        StagedCache { points_written: prefix_points, published: false }
    }

    /// The points the staged file holds.
    pub fn points_written(&self) -> (n: usize)
        ensures
            n == self.points(),
    {
        self.points_written
    }

    /// Whether the staged file was published (or discarded).
    pub fn is_published(&self) -> (b: bool)
        ensures
            b == self.is_done(),
    {
        self.published
    }

    /// A batch of `batch_len` bytes was written: its whole points count,
    /// unless the file was already published.
    pub fn record_batch(&mut self, batch_len: usize)
        requires
            old(self).points() + batch_len as int / POINT_SIZE as int <= usize::MAX,
        ensures
            final(self).is_done() == old(self).is_done(),
            final(self).points() == if old(self).is_done() {
                old(self).points() as int
            } else {
                old(self).points() + batch_len as int / POINT_SIZE as int
            },
    {
        if !self.published {
            self.points_written = self.points_written + batch_len / 6;
        }
    }

    /// Publishing, given the points the published file holds: replace it
    /// only when the staged file holds more; once done, nothing more.
    pub fn publish(&mut self, existing: usize) -> (a: PublishAction)
        ensures
            final(self).is_done(),
            final(self).points() == old(self).points(),
            a == publish_action(old(self).is_done(), old(self).points(), existing as nat),
    {
        if self.published {
            return PublishAction::Nothing;
        }
        self.published = true;
        if should_publish(self.points_written, existing) {
            PublishAction::Replace
        } else {
            PublishAction::Discard
        }
    }
}

/// What publishing does: nothing once done; else replace the published
/// file when the staged one holds more points, discard the staged one when not.
pub open spec fn publish_action(done: bool, staged: nat, existing: nat) -> PublishAction {
    if done {
        PublishAction::Nothing
    } else if staged > existing {
        PublishAction::Replace
    } else {
        PublishAction::Discard
    }
}

/// The points the published cache holds after an action, when the move
/// succeeds.
pub open spec fn points_after(a: PublishAction, staged: nat, existing: nat) -> nat {
    match a {
        PublishAction::Replace => staged,
        _ => existing,
    }
}

/// Publishing never shrinks the cache: once the move succeeds, the
/// published file holds at least as many points as before, strictly more
/// when it was replaced; and a staged file already published does nothing
/// more.
pub proof fn lemma_publish_never_shrinks(done: bool, staged: nat, existing: nat)
    ensures
        points_after(publish_action(done, staged, existing), staged, existing) >= existing,
        publish_action(done, staged, existing) == PublishAction::Replace ==> points_after(
            publish_action(done, staged, existing),
            staged,
            existing,
        ) > existing,
        publish_action(true, staged, existing) == PublishAction::Nothing,
{
}

/// A cache file made of the header and `n` points reads back as holding `n`
/// points, at most 1920.
pub proof fn lemma_written_cache_probes(n: nat)
    requires
        CACHE_HEADER_SIZE + n * POINT_SIZE <= u64::MAX,
    ensures
        cached_points(Some(header_bytes()), (CACHE_HEADER_SIZE + n * POINT_SIZE) as u64)
            == Some((if n < TOTAL_WAVEFORM_POINTS { n } else { TOTAL_WAVEFORM_POINTS as nat }) as usize),
{
    let size = (8 + n * 6) as u64;
    assert(size - 8 == n * 6);
    if n < 1920 {
        assert((n * 6) / 6 == n) by (nonlinear_arith);
    }
}

// ---------------------------------------------------------------- decoding

/// The frame at which bin `bin` ends: bins split the expected frames evenly,
/// bin `b` ending at `(b + 1) * expected / 1920`.
pub open spec fn bin_end(bin: int, expected_frames: int) -> int {
    (bin + 1) * expected_frames / TOTAL_WAVEFORM_POINTS as int
}

/// What the decoder does next with the frames it holds.
#[derive(Debug, Clone, Copy)]
pub enum BinStep {
    /// Every bin is done.
    Stop,
    /// The current bin has all its frames: close it.
    Finalize,
    /// Add this many of the held frames to the current bin.
    Take(usize),
}

/// The next step with `frames_left` frames held, at bin `bin_index`, the
/// frame cursor at `frame_cursor`.
pub open spec fn next_step(bin_index: usize, frame_cursor: u64, expected_frames: u64, frames_left: usize) -> BinStep {
    if bin_index >= TOTAL_WAVEFORM_POINTS {
        BinStep::Stop
    } else {
        let end = bin_end(bin_index as int, expected_frames as int);
        if frame_cursor >= end {
            BinStep::Finalize
        } else if end - frame_cursor < frames_left {
            BinStep::Take((end - frame_cursor) as usize)
        } else {
            BinStep::Take(frames_left)
        }
    }
}

/// The next step of the decoder (see `next_step`). A bin never takes
/// frames beyond its end, and takes at least one.
pub fn bin_step(bin_index: usize, frame_cursor: u64, expected_frames: u64, frames_left: usize) -> (s: BinStep)
    requires
        frames_left > 0,
        bin_index < TOTAL_WAVEFORM_POINTS ==> (bin_index + 1) * expected_frames <= u64::MAX,
    ensures
        s == next_step(bin_index, frame_cursor, expected_frames, frames_left),
        s matches BinStep::Take(n) ==> 0 < n <= frames_left
            && frame_cursor + n <= bin_end(bin_index as int, expected_frames as int),
{
    if bin_index >= TOTAL_WAVEFORM_POINTS {
        return BinStep::Stop;
    }
    let end: u64 = ((bin_index as u64 + 1) * expected_frames) / (TOTAL_WAVEFORM_POINTS as u64);
    if frame_cursor >= end {
        BinStep::Finalize
    } else if end - frame_cursor < frames_left as u64 {
        BinStep::Take((end - frame_cursor) as usize)
    } else {
        BinStep::Take(frames_left)
    }
}

/// The bins split the expected frames in order: each ends no later than
/// the next, none after the expected frame count, and the last exactly at it.
pub proof fn lemma_bins_partition(b: int, c: int, expected_frames: nat)
    requires
        0 <= b <= c < TOTAL_WAVEFORM_POINTS,
    ensures
        bin_end(b, expected_frames as int) <= bin_end(c, expected_frames as int),
        bin_end(c, expected_frames as int) <= expected_frames,
        bin_end(TOTAL_WAVEFORM_POINTS - 1, expected_frames as int) == expected_frames,
{
    let e = expected_frames as int;
    assert((b + 1) * e <= (c + 1) * e) by (nonlinear_arith)
        requires
            b <= c,
            e >= 0,
    ;
    vstd::arithmetic::div_mod::lemma_div_is_ordered((b + 1) * e, (c + 1) * e, 1920);
    assert((c + 1) * e <= 1920 * e) by (nonlinear_arith)
        requires
            c < 1920,
            e >= 0,
    ;
    vstd::arithmetic::div_mod::lemma_div_is_ordered((c + 1) * e, 1920 * e, 1920);
    vstd::arithmetic::div_mod::lemma_div_multiples_vanish(e, 1920);
    assert((1919 + 1) * e == 1920 * e);
}

/// The point a job starts producing at: the requested one, at most 1920.
pub fn resume_start(resume_from_point: Option<usize>) -> (p: usize)
    ensures
        p == match resume_from_point {
            Some(v) => if v < TOTAL_WAVEFORM_POINTS { v } else { TOTAL_WAVEFORM_POINTS },
            None => 0,
        },
{
    match resume_from_point {
        Some(v) => if v < TOTAL_WAVEFORM_POINTS { v } else { TOTAL_WAVEFORM_POINTS },
        None => 0,
    }
}

/// Whether the decoder seeks to where the cached points end: only when some
/// but not all points are cached.
pub fn seeks_on_resume(resume_points: usize) -> (b: bool)
    ensures
        b == (0 < resume_points < TOTAL_WAVEFORM_POINTS),
{
    resume_points > 0 && resume_points < TOTAL_WAVEFORM_POINTS
}

/// The FFmpeg arguments that decode audio stream `track_index` of
/// `video_path` to interleaved stereo 16-bit samples at `target_rate` on
/// standard output, from `seek` seconds when given.
pub open spec fn waveform_args_of(video_path: Seq<char>, track_index: u32, target_rate: u32, seek: Option<Seq<char>>) -> Seq<Seq<char>> {
    seq!["-hide_banner"@, "-loglevel"@, "error"@, "-nostdin"@, "-threads"@, "0"@, "-vn"@, "-sn"@, "-dn"@]
        + match seek { Some(t) => seq!["-ss"@, t], None => seq![] }
        + seq!["-i"@, video_path, "-map"@, "0:"@ + decimal(track_index as nat), "-ac"@, "2"@, "-ar"@,
            decimal(target_rate as nat), "-sample_fmt"@, "s16"@, "-c:a"@, "pcm_s16le"@, "-f"@, "s16le"@, "-"@]
}

/// The FFmpeg arguments of a waveform decode (see `waveform_args_of`).
pub fn build_waveform_args(video_path: &str, track_index: u32, target_rate: u32, seek: Option<&str>) -> (args: Vec<String>)
    ensures
        strs(args@) == waveform_args_of(video_path@, track_index, target_rate, match seek { Some(t) => Some(t@), None => None }),
{
    let mut args: Vec<String> = Vec::new();
    push_arg(&mut args, "-hide_banner");
    push_arg(&mut args, "-loglevel");
    push_arg(&mut args, "error");
    push_arg(&mut args, "-nostdin");
    push_arg(&mut args, "-threads");
    push_arg(&mut args, "0");
    push_arg(&mut args, "-vn");
    push_arg(&mut args, "-sn");
    push_arg(&mut args, "-dn");
    let ghost head = strs(args@);
    match seek {
        Some(t) => {
            push_arg(&mut args, "-ss");
            push_arg(&mut args, t);
        },
        None => {},
    }
    let ghost mid = strs(args@);
    push_arg(&mut args, "-i");
    push_arg(&mut args, video_path);
    push_arg(&mut args, "-map");
    push_string(&mut args, with_number("0:", track_index as u128));
    push_arg(&mut args, "-ac");
    push_arg(&mut args, "2");
    push_arg(&mut args, "-ar");
    push_string(&mut args, to_decimal(target_rate as u128));
    push_arg(&mut args, "-sample_fmt");
    push_arg(&mut args, "s16");
    push_arg(&mut args, "-c:a");
    push_arg(&mut args, "pcm_s16le");
    push_arg(&mut args, "-f");
    push_arg(&mut args, "s16le");
    push_arg(&mut args, "-");
    assert(strs(args@) =~= waveform_args_of(video_path@, track_index, target_rate, match seek { Some(t) => Some(t@), None => None }));
    args
}

} // verus!
