//! Deciding how each segment of an export is cut: which audio streams it
//! keeps, and whether its video is copied, partly re-encoded around the
//! inner keyframes ("smart cut"), or re-encoded whole.
//!
//! Timestamps are `f64` values held by their bits (see `floatbits`).
use vstd::prelude::*;
use crate::error::AppError;
use crate::floatbits::{bits_lt, f64_le, f64_lt, is_nan, strictly_increasing};
use crate::keyframes::{
    at_most_once, find_next_keyframe, find_prev_keyframe, first_above, last_below, next_admissible, non_decreasing,
    prev_admissible,
};
use crate::models::AudioTrack;
use crate::text::owned;

verus! {

/// How the video of one segment is produced.
#[derive(Debug, Clone, Copy)]
pub enum CutMode {
    /// Copy the streams from keyframe `k1` to `k4`.
    StreamCopy,
    /// Re-encode from the start to the first inner keyframe `k2` (unless the
    /// start is a keyframe), copy `k2`..`k3`, re-encode from `k3` to the end
    /// (unless the end is a keyframe).
    SmartCut { k1: u64, k2: u64, k3: u64, k4: u64, start_is_keyframe: bool, end_is_keyframe: bool },
    /// Re-encode the whole segment.
    FullEncode,
}

/// The plan for one segment: the keyframe at or before its start, the one
/// at or after its end, and the cut mode.
#[derive(Debug, Clone, Copy)]
pub struct SegmentPlan {
    pub k1: u64,
    pub k4: u64,
    pub mode: CutMode,
}

/// The plan, given the keyframe searches around the segment: `prev_start`
/// and `next_start` around the start, `prev_end` and `next_end` around the
/// end.
pub open spec fn plan_from(
    smart_cut: bool,
    start: u64,
    end: u64,
    start_is_keyframe: bool,
    end_is_keyframe: bool,
    prev_start: Option<u64>,
    next_start: Option<u64>,
    prev_end: Option<u64>,
    next_end: Option<u64>,
) -> SegmentPlan {
    let k1 = if start_is_keyframe {
        start
    } else {
        match prev_start { Some(k) => k, None => start }
    };
    let k4 = if end_is_keyframe {
        end
    } else {
        match next_end { Some(k) => k, None => end }
    };
    let mode = if !smart_cut || (start_is_keyframe && end_is_keyframe) {
        CutMode::StreamCopy
    } else {
        match (next_start, prev_end) {
            (Some(k2), Some(k3)) => if f64_lt(k2, k3) {
                CutMode::SmartCut { k1, k2, k3, k4, start_is_keyframe, end_is_keyframe }
            } else {
                CutMode::FullEncode
            },
            _ => CutMode::FullEncode,
        }
    };
    SegmentPlan { k1, k4, mode }
}

/// The plan of a segment on a strictly increasing list of keyframes.
pub open spec fn planned(
    smart_cut: bool,
    start: u64,
    end: u64,
    start_is_keyframe: bool,
    end_is_keyframe: bool,
    keyframes: Seq<u64>,
) -> SegmentPlan {
    plan_from(
        smart_cut,
        start,
        end,
        start_is_keyframe,
        end_is_keyframe,
        last_below(keyframes, start),
        first_above(keyframes, start),
        last_below(keyframes, end),
        first_above(keyframes, end),
    )
}

/// The plan of a segment from the keyframe searches around its start and end.
pub fn plan_segment_from(
    smart_cut: bool,
    start: u64,
    end: u64,
    start_is_keyframe: bool,
    end_is_keyframe: bool,
    prev_start: Option<u64>,
    next_start: Option<u64>,
    prev_end: Option<u64>,
    next_end: Option<u64>,
) -> (p: SegmentPlan)
    ensures
        p == plan_from(smart_cut, start, end, start_is_keyframe, end_is_keyframe, prev_start, next_start, prev_end, next_end),
{
    let k1: u64 = if start_is_keyframe {
        start
    } else {
        match prev_start { Some(k) => k, None => start }
    };
    let k4: u64 = if end_is_keyframe {
        end
    } else {
        match next_end { Some(k) => k, None => end }
    };
    let mode: CutMode = if !smart_cut || (start_is_keyframe && end_is_keyframe) {
        CutMode::StreamCopy
    } else {
        match (next_start, prev_end) {
            (Some(k2), Some(k3)) => if bits_lt(k2, k3) {
                CutMode::SmartCut { k1, k2, k3, k4, start_is_keyframe, end_is_keyframe }
            } else {
                CutMode::FullEncode
            },
            _ => CutMode::FullEncode,
        }
    };
    SegmentPlan { k1, k4, mode }
}

/// The plan of the segment `start`..`end` (whether each end lies on a
/// keyframe is decided by the caller): `k1` is the start when it is a
/// keyframe, else the keyframe before it (or the start when there is none);
/// `k4` likewise after the end. Without smart cut, or when both ends are
/// keyframes, the segment is copied; otherwise it is smart-cut when the
/// first keyframe after the start comes before the last keyframe before the
/// end, and re-encoded whole when not.
pub fn plan_segment(
    smart_cut: bool,
    start: u64,
    end: u64,
    start_is_keyframe: bool,
    end_is_keyframe: bool,
    keyframes: &[u64],
) -> (p: SegmentPlan)
    ensures
        strictly_increasing(keyframes@) && !is_nan(start) && !is_nan(end) ==> p == planned(
            smart_cut,
            start,
            end,
            start_is_keyframe,
            end_is_keyframe,
            keyframes@,
        ),
        non_decreasing(keyframes@) && !is_nan(start) && !is_nan(end) && at_most_once(keyframes@, start)
            && at_most_once(keyframes@, end) ==> p == planned(
            smart_cut,
            start,
            end,
            start_is_keyframe,
            end_is_keyframe,
            keyframes@,
        ),
        non_decreasing(keyframes@) && !is_nan(start) && !is_nan(end) ==> exists|
            ps: Option<u64>,
            ns: Option<u64>,
            pe: Option<u64>,
            ne: Option<u64>,
        |
            #![trigger plan_from(smart_cut, start, end, start_is_keyframe, end_is_keyframe, ps, ns, pe, ne)]
            prev_admissible(keyframes@, start, ps) && next_admissible(keyframes@, start, ns)
                && prev_admissible(keyframes@, end, pe) && next_admissible(keyframes@, end, ne) && p == plan_from(
                smart_cut,
                start,
                end,
                start_is_keyframe,
                end_is_keyframe,
                ps,
                ns,
                pe,
                ne,
            ),
        !smart_cut || (start_is_keyframe && end_is_keyframe) ==> p.mode is StreamCopy,
        p.k1 == start || keyframes@.contains(p.k1),
        p.k4 == end || keyframes@.contains(p.k4),
        p.mode matches CutMode::SmartCut { k1, k2, k3, k4, .. } ==> {
            &&& k1 == p.k1 && k4 == p.k4
            &&& keyframes@.contains(k2) && keyframes@.contains(k3)
            &&& f64_lt(k2, k3)
        },
{
    let prev_start: Option<u64> = find_prev_keyframe(start, keyframes);
    let next_start: Option<u64> = find_next_keyframe(start, keyframes);
    let prev_end: Option<u64> = find_prev_keyframe(end, keyframes);
    let next_end: Option<u64> = find_next_keyframe(end, keyframes);
    plan_segment_from(
        smart_cut,
        start,
        end,
        start_is_keyframe,
        end_is_keyframe,
        prev_start,
        next_start,
        prev_end,
        next_end,
    )
}

proof fn lemma_last_below_lt(s: Seq<u64>, t: u64)
    ensures
        last_below(s, t) matches Some(k) ==> f64_lt(k, t),
    decreases s.len(),
{
    if s.len() > 0 {
        lemma_last_below_lt(s.drop_last(), t);
    }
}

proof fn lemma_first_above_gt(s: Seq<u64>, t: u64)
    ensures
        first_above(s, t) matches Some(k) ==> f64_lt(t, k),
    decreases s.len(),
{
    if s.len() > 0 {
        lemma_first_above_gt(s.drop_first(), t);
    }
}

/// A planned segment covers the requested one: `k1 <= start` and
/// `end <= k4`; a smart cut re-encodes only around the ends, with
/// `k1 <= start < k2 < k3 < end <= k4`.
pub proof fn lemma_plan_brackets_segment(
    smart_cut: bool,
    start: u64,
    end: u64,
    start_is_keyframe: bool,
    end_is_keyframe: bool,
    keyframes: Seq<u64>,
)
    requires
        !is_nan(start),
        !is_nan(end),
    ensures
        ({
            let p = planned(smart_cut, start, end, start_is_keyframe, end_is_keyframe, keyframes);
            &&& f64_le(p.k1, start)
            &&& f64_le(end, p.k4)
            &&& (p.mode matches CutMode::SmartCut { k1, k2, k3, k4, .. } ==> {
                &&& f64_le(k1, start) && f64_lt(start, k2) && f64_lt(k2, k3)
                &&& f64_lt(k3, end) && f64_le(end, k4)
            })
        }),
{
    lemma_last_below_lt(keyframes, start);
    lemma_last_below_lt(keyframes, end);
    lemma_first_above_gt(keyframes, start);
    lemma_first_above_gt(keyframes, end);
}

/// Both ends on keyframes, or smart cut off: the segment is copied.
pub proof fn lemma_plan_copies_on_keyframes(
    smart_cut: bool,
    start: u64,
    end: u64,
    start_is_keyframe: bool,
    end_is_keyframe: bool,
    keyframes: Seq<u64>,
)
    requires
        !smart_cut || (start_is_keyframe && end_is_keyframe),
    ensures
        planned(smart_cut, start, end, start_is_keyframe, end_is_keyframe, keyframes).mode
            is StreamCopy,
{
}

/// Whatever the keyframe searches give on ascending keyframes (repeats
/// allowed), the plan covers the requested segment: `k1 <= start` and
/// `end <= k4`, and a smart cut copies only inside the segment, with
/// `k1 <= start <= k2 < k3 <= end <= k4`.
pub proof fn lemma_plan_brackets_segment_ascending(
    smart_cut: bool,
    start: u64,
    end: u64,
    start_is_keyframe: bool,
    end_is_keyframe: bool,
    keyframes: Seq<u64>,
    prev_start: Option<u64>,
    next_start: Option<u64>,
    prev_end: Option<u64>,
    next_end: Option<u64>,
)
    requires
        !is_nan(start),
        !is_nan(end),
        prev_admissible(keyframes, start, prev_start),
        next_admissible(keyframes, start, next_start),
        prev_admissible(keyframes, end, prev_end),
        next_admissible(keyframes, end, next_end),
    ensures
        ({
            let p = plan_from(
                smart_cut,
                start,
                end,
                start_is_keyframe,
                end_is_keyframe,
                prev_start,
                next_start,
                prev_end,
                next_end,
            );
            &&& f64_le(p.k1, start)
            &&& f64_le(end, p.k4)
            &&& (p.mode matches CutMode::SmartCut { k1, k2, k3, k4, .. } ==> {
                &&& f64_le(k1, start) && f64_le(start, k2) && f64_lt(k2, k3)
                &&& f64_le(k3, end) && f64_le(end, k4)
            })
        }),
{
    lemma_last_below_lt(keyframes, start);
    lemma_last_below_lt(keyframes, end);
    lemma_first_above_gt(keyframes, start);
    lemma_first_above_gt(keyframes, end);
}

// ---------------------------------------------------------------- audio selection

/// The audio selections (1-based track numbers; 0 is none) that name an
/// existing track, in order.
pub open spec fn selected_numbers(sel: Seq<usize>, n_tracks: int) -> Seq<usize>
    decreases sel.len(),
{
    if sel.len() == 0 {
        seq![]
    } else {
        let before = selected_numbers(sel.drop_last(), n_tracks);
        if sel.last() != 0 && sel.last() - 1 < n_tracks {
            before.push(sel.last())
        } else {
            before
        }
    }
}

/// Every selection kept names an existing track (1-based), in the order
/// the selection gave, and every such selection is kept.
pub proof fn lemma_selected_are_tracks(sel: Seq<usize>, n_tracks: int)
    ensures
        forall|i: int| 0 <= i < selected_numbers(sel, n_tracks).len() ==> {
            &&& 1 <= #[trigger] selected_numbers(sel, n_tracks)[i] <= n_tracks
            &&& sel.contains(selected_numbers(sel, n_tracks)[i])
        },
        forall|j: int| 0 <= j < sel.len() && 1 <= #[trigger] sel[j] <= n_tracks ==> selected_numbers(sel, n_tracks).contains(sel[j]),
    decreases sel.len(),
{
    if sel.len() > 0 {
        let init = sel.drop_last();
        lemma_selected_are_tracks(init, n_tracks);
        let before = selected_numbers(init, n_tracks);
        let now = selected_numbers(sel, n_tracks);
        assert forall|i: int| 0 <= i < now.len() implies {
            &&& 1 <= #[trigger] now[i] <= n_tracks
            &&& sel.contains(now[i])
        } by {
            if i < before.len() {
                assert(now[i] == before[i]);
                let k = choose|k: int| 0 <= k < init.len() && init[k] == before[i];
                assert(sel[k] == before[i]);
            } else {
                assert(now[i] == sel.last());
                assert(sel[sel.len() - 1] == sel.last());
            }
        }
        assert forall|j: int| 0 <= j < sel.len() && 1 <= #[trigger] sel[j] <= n_tracks implies now.contains(sel[j]) by {
            if j < sel.len() - 1 {
                assert(init[j] == sel[j]);
                let k = choose|k: int| 0 <= k < before.len() && before[k] == init[j];
                assert(now[k] == before[k]);
            } else {
                assert(now[now.len() - 1] == sel.last());
            }
        }
    }
}

/// The stream numbers of the selected audio tracks that exist.
pub fn select_audio_streams(selection: &[usize], track_count: usize) -> (r: Vec<usize>)
    ensures
        r@ == selected_numbers(selection@, track_count as int),
{
    let mut r: Vec<usize> = Vec::new();
    let n: usize = selection.len();
    let mut i: usize = 0;
    while i < n
        invariant
            i <= n,
            n == selection@.len(),
            r@ == selected_numbers(selection@.subrange(0, i as int), track_count as int),
        decreases n - i,
    {
        assert(selection@.subrange(0, i as int + 1).drop_last() =~= selection@.subrange(0, i as int));
        let k: usize = selection[i];
        if k != 0 && k - 1 < track_count {
            r.push(k);
        }
        i = i + 1;
    }
    assert(selection@.subrange(0, n as int) =~= selection@);
    r
}

/// The selected tracks themselves, in the order of the selection.
pub fn select_audio_tracks<'a>(selection: &[usize], tracks: &'a [AudioTrack]) -> (r: Vec<&'a AudioTrack>)
    ensures
        r@.len() == selected_numbers(selection@, tracks@.len() as int).len(),
        forall|j: int| 0 <= j < r@.len() ==> *r@[j]
            == tracks@[selected_numbers(selection@, tracks@.len() as int)[j] - 1],
{
    let mut r: Vec<&'a AudioTrack> = Vec::new();
    let n: usize = selection.len();
    let mut i: usize = 0;
    while i < n
        invariant
            i <= n,
            n == selection@.len(),
            ({
                let sel = selected_numbers(selection@.subrange(0, i as int), tracks@.len() as int);
                &&& r@.len() == sel.len()
                &&& forall|j: int| 0 <= j < r@.len() ==> *r@[j] == tracks@[sel[j] - 1]
            }),
        decreases n - i,
    {
        assert(selection@.subrange(0, i as int + 1).drop_last() =~= selection@.subrange(0, i as int));
        let k: usize = selection[i];
        if k != 0 && k - 1 < tracks.len() {
            r.push(&tracks[k - 1]);
        }
        i = i + 1;
    }
    assert(selection@.subrange(0, n as int) =~= selection@);
    r
}

// ---------------------------------------------------------------- request checks

/// Checks an export request against what the file system reported:
/// `FileNotFound` with the video path, `ExportError` for a missing output
/// folder, `InvalidSegment` when there is no segment.
pub fn check_export_request(video_exists: bool, folder_exists: bool, segment_count: usize, video_path: &str) -> (r: Result<(), AppError>)
    ensures
        r is Ok <==> video_exists && folder_exists && segment_count > 0,
        r matches Err(AppError::FileNotFound(m)) ==> !video_exists && m@ == video_path@,
        r matches Err(AppError::ExportError(m)) ==> video_exists && !folder_exists
            && m@ == "Output folder does not exist"@,
        r matches Err(AppError::InvalidSegment(m)) ==> video_exists && folder_exists
            && segment_count == 0 && m@ == "No segments to export"@,
        r matches Err(e) ==> (e is FileNotFound || e is ExportError || e is InvalidSegment),
{
    if !video_exists {
        return Err(AppError::FileNotFound(owned(video_path)));
    }
    if !folder_exists {
        return Err(AppError::ExportError(owned("Output folder does not exist")));
    }
    if segment_count == 0 {
        return Err(AppError::InvalidSegment(owned("No segments to export")));
    }
    Ok(())
}

} // verus!
