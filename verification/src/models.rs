//! Plain data exchanged with the front end and between the stages of an export.
use vstd::prelude::*;

verus! {

/// An audio stream of a video file.
#[derive(Debug, Clone)]
pub struct AudioTrack {
    /// Index of the stream among all streams of the file.
    pub index: usize,
    /// The container's id for the stream (the MP4 track id).
    pub track_id: Option<u32>,
    pub codec: String,
    pub channels: u32,
    pub name: Option<String>,
}

/// What an export produced.
#[derive(Debug, Clone)]
pub struct ExportResult {
    pub success: bool,
    pub output_files: Vec<String>,
}

/// Parameters of the source's video stream that re-encoded parts should
/// match so that they concatenate with stream-copied parts.
#[derive(Debug, Clone)]
pub struct VideoCodecParams {
    pub profile: Option<String>,
    pub level: Option<u32>,
    pub pix_fmt: Option<String>,
    pub color_range: Option<String>,
}

} // verus!
