//! The steps of a smart cut and the files they use.
//!
//! A smart cut re-encodes the head (start to the first inner keyframe)
//! unless the start is a keyframe, copies the middle when it is not empty,
//! re-encodes the tail (last inner keyframe to the end) unless the end is a
//! keyframe, concatenates the video parts, checks that the joins decode,
//! and finally muxes the selected audio over the video.
use vstd::prelude::*;
use crate::text::{contains_text, decimal, has_infix, owned, push_decimal, push_str};

verus! {

/// One step of a smart cut.
#[derive(Debug, Clone, Copy, PartialEq, Eq, Structural)]
pub enum SmartCutStep {
    EncodeHead,
    CopyMiddle,
    EncodeTail,
    Concat,
    CheckJoins,
    MuxAudio,
}

/// The steps, in order.
pub open spec fn steps_of(start_is_keyframe: bool, end_is_keyframe: bool, middle_nonempty: bool, has_audio: bool) -> Seq<SmartCutStep> {
    (if start_is_keyframe { seq![] } else { seq![SmartCutStep::EncodeHead] })
        + (if middle_nonempty { seq![SmartCutStep::CopyMiddle] } else { seq![] })
        + (if end_is_keyframe { seq![] } else { seq![SmartCutStep::EncodeTail] })
        + seq![SmartCutStep::Concat, SmartCutStep::CheckJoins]
        + (if has_audio { seq![SmartCutStep::MuxAudio] } else { seq![] })
}

/// The steps of a smart cut, in order (see `steps_of`).
pub fn smart_cut_steps(start_is_keyframe: bool, end_is_keyframe: bool, middle_nonempty: bool, has_audio: bool) -> (steps: Vec<SmartCutStep>)
    ensures
        steps@ == steps_of(start_is_keyframe, end_is_keyframe, middle_nonempty, has_audio),
{
    let mut steps: Vec<SmartCutStep> = Vec::new();
    if !start_is_keyframe {
        steps.push(SmartCutStep::EncodeHead);
    }
    if middle_nonempty {
        steps.push(SmartCutStep::CopyMiddle);
    }
    if !end_is_keyframe {
        steps.push(SmartCutStep::EncodeTail);
    }
    steps.push(SmartCutStep::Concat);
    steps.push(SmartCutStep::CheckJoins);
    if has_audio {
        steps.push(SmartCutStep::MuxAudio);
    }
    assert(steps@ =~= steps_of(start_is_keyframe, end_is_keyframe, middle_nonempty, has_audio));
    steps
}

/// The place of a step in a smart cut's fixed order.
pub open spec fn step_rank(s: SmartCutStep) -> int {
    match s {
        SmartCutStep::EncodeHead => 0,
        SmartCutStep::CopyMiddle => 1,
        SmartCutStep::EncodeTail => 2,
        SmartCutStep::Concat => 3,
        SmartCutStep::CheckJoins => 4,
        SmartCutStep::MuxAudio => 5,
    }
}

/// What a smart cut does, step by step: the head is re-encoded exactly when
/// the start is not a keyframe, the middle copied exactly when it is not
/// empty, the tail re-encoded exactly when the end is not a keyframe; the
/// parts are always concatenated and their joins checked; the audio is
/// muxed exactly when audio is selected, whatever the keyframes, and then
/// it is the last step (else the join check is). Every step occurs once at
/// most, in the fixed order head, middle, tail, concat, check, mux.
pub proof fn lemma_smart_cut_steps_do_the_cut(
    start_is_keyframe: bool,
    end_is_keyframe: bool,
    middle_nonempty: bool,
    has_audio: bool,
)
    ensures
        ({
            let s = steps_of(start_is_keyframe, end_is_keyframe, middle_nonempty, has_audio);
            &&& s.contains(SmartCutStep::EncodeHead) <==> !start_is_keyframe
            &&& s.contains(SmartCutStep::CopyMiddle) <==> middle_nonempty
            &&& s.contains(SmartCutStep::EncodeTail) <==> !end_is_keyframe
            &&& s.contains(SmartCutStep::Concat)
            &&& s.contains(SmartCutStep::CheckJoins)
            &&& s.contains(SmartCutStep::MuxAudio) <==> has_audio
            &&& s.len() > 0
            &&& (has_audio ==> s.last() == SmartCutStep::MuxAudio)
            &&& (!has_audio ==> s.last() == SmartCutStep::CheckJoins)
            &&& forall|i: int, j: int| 0 <= i < j < s.len() ==> step_rank(#[trigger] s[i]) < step_rank(#[trigger] s[j])
        }),
{
    let a: Seq<SmartCutStep> = if start_is_keyframe { seq![] } else { seq![SmartCutStep::EncodeHead] };
    let b: Seq<SmartCutStep> = if middle_nonempty { seq![SmartCutStep::CopyMiddle] } else { seq![] };
    let c: Seq<SmartCutStep> = if end_is_keyframe { seq![] } else { seq![SmartCutStep::EncodeTail] };
    let d: Seq<SmartCutStep> = seq![SmartCutStep::Concat, SmartCutStep::CheckJoins];
    let e: Seq<SmartCutStep> = if has_audio { seq![SmartCutStep::MuxAudio] } else { seq![] };
    let s = steps_of(start_is_keyframe, end_is_keyframe, middle_nonempty, has_audio);
    assert(s == a + b + c + d + e);
    let na = a.len() as int;
    let nb = b.len() as int;
    let nc = c.len() as int;
    // Position of every element, by the part it lies in.
    assert forall|i: int| 0 <= i < s.len() implies #[trigger] s[i] == (if i < na { a[i] } else if i < na + nb {
        b[i - na]
    } else if i < na + nb + nc {
        c[i - na - nb]
    } else if i < na + nb + nc + 2 {
        d[i - na - nb - nc]
    } else {
        e[i - na - nb - nc - 2]
    }) by {}
    assert forall|i: int| 0 <= i < s.len() implies step_rank(#[trigger] s[i]) == (if i < na { 0 } else if i < na + nb {
        1
    } else if i < na + nb + nc {
        2
    } else if i < na + nb + nc + 2 {
        3 + (i - na - nb - nc)
    } else {
        5
    }) by {}
    assert(s[na + nb + nc] == SmartCutStep::Concat);
    assert(s[na + nb + nc + 1] == SmartCutStep::CheckJoins);
    if !start_is_keyframe {
        assert(s[0] == SmartCutStep::EncodeHead);
    }
    if middle_nonempty {
        assert(s[na] == SmartCutStep::CopyMiddle);
    }
    if !end_is_keyframe {
        assert(s[na + nb] == SmartCutStep::EncodeTail);
    }
    if has_audio {
        assert(s[na + nb + nc + 2] == SmartCutStep::MuxAudio);
    }
    assert(s.last() == s[s.len() - 1]);
}

/// The joins to check: after the head when it was re-encoded, before the
/// tail when it was re-encoded.
pub fn joins_checked(start_is_keyframe: bool, end_is_keyframe: bool) -> (n: usize)
    ensures
        n == (if start_is_keyframe { 0int } else { 1int }) + (if end_is_keyframe { 0int } else { 1int }),
{
    let mut n: usize = 0;
    if !start_is_keyframe {
        n = n + 1;
    }
    if !end_is_keyframe {
        n = n + 1;
    }
    n
}

/// A failed join check whose error output shows that the check itself
/// could not run; such a join is taken as compatible.
pub open spec fn check_could_not_run(stderr: Seq<char>) -> bool {
    has_infix(stderr, "Error opening output file"@) || has_infix(stderr, "is not known"@)
}

/// Whether a failed join check leaves the join accepted (see
/// `check_could_not_run`).
pub fn join_check_inconclusive(stderr: &str) -> (b: bool)
    ensures
        b == check_could_not_run(stderr@),
{
    contains_text(stderr, "Error opening output file") || contains_text(stderr, "is not known")
}

/// What a smart cut does after checking its joins.
#[derive(Debug, Clone, Copy, PartialEq, Eq, Structural)]
pub enum JoinOutcome {
    /// The joins decode: go on with the remaining steps.
    Continue,
    /// A join does not decode: encode the whole segment instead, first
    /// removing the concatenated output when it was written straight to the
    /// output path (no audio to mux).
    FullEncode { remove_output: bool },
}

/// What follows the join check.
pub fn after_join_check(joins_ok: bool, has_audio: bool) -> (a: JoinOutcome)
    ensures
        joins_ok <==> a is Continue,
        !joins_ok ==> a == (JoinOutcome::FullEncode { remove_output: !has_audio }),
{
    if joins_ok {
        JoinOutcome::Continue
    } else {
        JoinOutcome::FullEncode { remove_output: !has_audio }
    }
}

/// The name of a temporary file of a smart cut: `<stem>_<timestamp>.<ext>`.
pub fn temp_file_name(stem: &str, timestamp: u128, ext: &str) -> (name: String)
    ensures
        name@ == stem@ + "_"@ + decimal(timestamp as nat) + "."@ + ext@,
{
    let mut name: String = owned(stem);
    push_str(&mut name, "_");
    push_decimal(&mut name, timestamp);
    push_str(&mut name, ".");
    push_str(&mut name, ext);
    name
}

/// The list of files a smart cut writes in its temporary folder, by path:
/// the caller removes each of them when the cut ends, however it ends.
pub struct TempCleanup {
    paths: Vec<String>,
}

impl TempCleanup {
    /// The files to remove.
    pub closed spec fn files(&self) -> Seq<Seq<char>> {
        crate::text::strs(self.paths@)
    }

    /// A cleanup of the files `paths`.
    pub fn new(paths: Vec<String>) -> (c: TempCleanup)
        ensures
            c.files() == crate::text::strs(paths@),
    {
        TempCleanup { paths }
    }

    /// The files to remove, in the order given.
    pub fn paths(&self) -> (p: &Vec<String>)
        ensures
            crate::text::strs(p@) == self.files(),
    {
        &self.paths
    }
}

} // verus!
