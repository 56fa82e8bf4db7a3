//! The editing session that is restored at start-up: the open file, the
//! segments kept and the audio tracks chosen.
use vstd::prelude::*;
use crate::error::AppError;
use crate::floatbits::{bits_le, bits_lt, f64_le, f64_lt, ZERO_BITS};
use crate::text::{joined, owned, push_str};

verus! {

/// A segment of the timeline; `start` and `end` are `f64` seconds held by
/// their bits.
#[derive(Debug, Clone)]
pub struct PrunedSegment {
    pub id: String,
    pub start: u64,
    pub end: u64,
}

/// A saved session.
#[derive(Debug, Clone)]
pub struct Session {
    pub file_path: Option<String>,
    pub segments: Option<Vec<PrunedSegment>>,
    pub audio_tracks: Option<Vec<i32>>,
}

/// Why a saved session is not restored.
#[derive(Debug, Clone, Copy, PartialEq, Eq, Structural)]
pub enum SessionFault {
    /// It has content but no file.
    MissingFilePath,
    /// Its file is gone.
    FileMissing,
    /// The segment at this index starts before 0 or does not end after it
    /// starts.
    InvalidSegment(usize),
    /// An audio track id is negative.
    NegativeTrack,
}

/// A segment is invalid when it starts before 0 or ends at or before its
/// start.
pub open spec fn segment_invalid(s: PrunedSegment) -> bool {
    f64_lt(s.start, ZERO_BITS) || f64_le(s.end, s.start)
}

/// The index of the first invalid segment.
pub open spec fn first_invalid(segs: Seq<PrunedSegment>, n: int) -> Option<usize>
    decreases n,
{
    if n <= 0 {
        None
    } else {
        match first_invalid(segs, n - 1) {
            Some(i) => Some(i),
            None => if segment_invalid(segs[n - 1]) { Some((n - 1) as usize) } else { None },
        }
    }
}

impl Session {
    /// The session has nothing: no file, and no segment or track.
    pub open spec fn blank_spec(&self) -> bool {
        &&& self.file_path is None
        &&& match self.segments { Some(s) => s@.len() == 0, None => true }
        &&& match self.audio_tracks { Some(t) => t@.len() == 0, None => true }
    }

    /// What stops the session from being restored, given whether its file
    /// exists; `None` when it can be restored.
    pub open spec fn fault(&self, file_exists: bool) -> Option<SessionFault> {
        if self.blank_spec() {
            None
        } else if self.file_path is None {
            Some(SessionFault::MissingFilePath)
        } else if !file_exists {
            Some(SessionFault::FileMissing)
        } else if self.segments is Some && first_invalid(self.segments->0@, self.segments->0@.len() as int) is Some {
            Some(SessionFault::InvalidSegment(first_invalid(self.segments->0@, self.segments->0@.len() as int)->0))
        } else if self.audio_tracks is Some && exists|i: int| 0 <= i < self.audio_tracks->0@.len() && #[trigger] self.audio_tracks->0@[i] < 0 {
            Some(SessionFault::NegativeTrack)
        } else {
            None
        }
    }

    /// The empty session.
    pub fn blank() -> (s: Session)
        ensures
            s.file_path is None,
            s.segments is None,
            s.audio_tracks is None,
            s.blank_spec(),
    {
        Session { file_path: None, segments: None, audio_tracks: None }
    }

    /// Whether the session has nothing in it.
    pub fn is_blank(&self) -> (b: bool)
        ensures
            b == self.blank_spec(),
    {
        self.file_path.is_none()
            && match &self.segments { Some(s) => s.len() == 0, None => true }
            && match &self.audio_tracks { Some(t) => t.len() == 0, None => true }
    }

    /// Checks the session before it is restored; `file_exists` tells
    /// whether its file is on disk. A blank session is always fine; else it
    /// needs a file that exists, valid segments and no negative track id.
    pub fn validate(&self, file_exists: bool) -> (r: Result<(), SessionFault>)
        ensures
            match self.fault(file_exists) {
                Some(f) => r == Err::<(), SessionFault>(f),
                None => r is Ok,
            },
    {
        if self.is_blank() {
            return Ok(());
        }
        if self.file_path.is_none() {
            return Err(SessionFault::MissingFilePath);
        }
        if !file_exists {
            return Err(SessionFault::FileMissing);
        }
        match &self.segments {
            Some(segs) => {
                let n: usize = segs.len();
                let mut i: usize = 0;
                while i < n
                    invariant
                        i <= n,
                        n == segs@.len(),
                        first_invalid(segs@, i as int) is None,
                        !self.blank_spec(),
                        self.file_path is Some,
                        file_exists,
                        self.segments == Some(*segs),
                    decreases n - i,
                {
                    let s: &PrunedSegment = &segs[i];
                    if bits_lt(s.start, ZERO_BITS) || bits_le(s.end, s.start) {
                        proof {
                            lemma_first_invalid_stays(segs@, i as int + 1, n as int);
                        }
                        return Err(SessionFault::InvalidSegment(i));
                    }
                    i = i + 1;
                }
            },
            None => {},
        }
        match &self.audio_tracks {
            Some(tracks) => {
                let n: usize = tracks.len();
                let mut i: usize = 0;
                while i < n
                    invariant
                        i <= n,
                        n == tracks@.len(),
                        forall|j: int| 0 <= j < i ==> tracks@[j] >= 0,
                        !self.blank_spec(),
                        self.file_path is Some,
                        file_exists,
                        self.audio_tracks == Some(*tracks),
                        self.segments is Some ==> first_invalid(self.segments->0@, self.segments->0@.len() as int) is None,
                    decreases n - i,
                {
                    if tracks[i] < 0 {
                        assert(self.audio_tracks->0@[i as int] < 0);
                        return Err(SessionFault::NegativeTrack);
                    }
                    i = i + 1;
                }
            },
            None => {},
        }
        Ok(())
    }
}

proof fn lemma_first_invalid_stays(segs: Seq<PrunedSegment>, m: int, n: int)
    requires
        0 <= m <= n,
        first_invalid(segs, m) is Some,
    ensures
        first_invalid(segs, n) == first_invalid(segs, m),
    decreases n - m,
{
    if m < n {
        lemma_first_invalid_stays(segs, m, n - 1);
    }
}

/// The error a fault is reported as. `start_text` and `end_text` are the
/// invalid segment's bounds as `{}` prints them.
pub fn fault_error(fault: SessionFault, file_path: &str, start_text: &str, end_text: &str) -> (e: AppError)
    ensures
        e matches AppError::Other(m) && m@ == match fault {
            SessionFault::MissingFilePath => "session: missing file_path"@,
            SessionFault::FileMissing => "session: file does not exist: "@ + file_path@,
            SessionFault::InvalidSegment(_) => "session: invalid segment range ["@ + start_text@ + ", "@ + end_text@ + "]"@,
            SessionFault::NegativeTrack => "session: negative audio track id"@,
        },
{
    match fault {
        SessionFault::MissingFilePath => AppError::Other(owned("session: missing file_path")),
        SessionFault::FileMissing => AppError::Other(joined("session: file does not exist: ", file_path)),
        SessionFault::InvalidSegment(_) => {
            let mut m: String = joined("session: invalid segment range [", start_text);
            push_str(&mut m, ", ");
            push_str(&mut m, end_text);
            push_str(&mut m, "]");
            AppError::Other(m)
        },
        SessionFault::NegativeTrack => AppError::Other(owned("session: negative audio track id")),
    }
}

/// The blank session is blank and is always restored.
pub proof fn lemma_blank_session_valid(file_exists: bool)
    ensures
        (Session { file_path: None, segments: None, audio_tracks: None }).blank_spec(),
        (Session { file_path: None, segments: None, audio_tracks: None }).fault(file_exists) is None,
{
}

/// A blank session is restored whether or not a file exists.
pub proof fn lemma_blank_never_faults(s: Session, file_exists: bool)
    requires
        s.blank_spec(),
    ensures
        s.fault(file_exists) is None,
{
}

/// A session that is restored and not blank names a file that exists, has
/// only valid segments and no negative track id.
pub proof fn lemma_restored_session_sound(s: Session, file_exists: bool)
    requires
        s.fault(file_exists) is None,
        !s.blank_spec(),
    ensures
        s.file_path is Some,
        file_exists,
        s.segments matches Some(v) ==> forall|i: int| 0 <= i < v@.len() ==> !segment_invalid(#[trigger] v@[i]),
        s.audio_tracks matches Some(t) ==> forall|i: int| 0 <= i < t@.len() ==> #[trigger] t@[i] >= 0,
{
    if let Some(v) = s.segments {
        assert forall|i: int| 0 <= i < v@.len() implies !segment_invalid(#[trigger] v@[i]) by {
            if segment_invalid(v@[i]) {
                lemma_first_invalid_found(v@, i, v@.len() as int);
            }
        }
    }
}

proof fn lemma_first_invalid_found(segs: Seq<PrunedSegment>, i: int, n: int)
    requires
        0 <= i < n <= segs.len(),
        segment_invalid(segs[i]),
    ensures
        first_invalid(segs, n) is Some,
    decreases n,
{
    if i < n - 1 {
        lemma_first_invalid_found(segs, i, n - 1);
    }
}

} // verus!
