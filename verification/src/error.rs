//! The library's error type.
use vstd::prelude::*;

verus! {

/// Errors reported by the library. Each variant carries the detail text.
#[derive(Debug, Clone)]
pub enum AppError {
    FileNotFound(String),
    InvalidVideo(String),
    FFmpegError(String),
    FFprobeError(String),
    IoError(String),
    JsonError(String),
    InvalidSegment(String),
    ConfigError(String),
    ExportError(String),
    Other(String),
}

/// `e` is an `FFprobeError` whose detail is `m`.
pub open spec fn is_ffprobe_error(e: AppError, m: Seq<char>) -> bool {
    e matches AppError::FFprobeError(s) && s@ == m
}

/// `e` is an `Other` error whose detail is `m`.
pub open spec fn is_other_error(e: AppError, m: Seq<char>) -> bool {
    e matches AppError::Other(s) && s@ == m
}

/// The prefix that the display text of each variant starts with.
pub open spec fn error_prefix(e: AppError) -> Seq<char> {
    match e {
        AppError::FileNotFound(_) => "File not found: "@,
        AppError::InvalidVideo(_) => "Invalid video file: "@,
        AppError::FFmpegError(_) => "FFmpeg error: "@,
        AppError::FFprobeError(_) => "FFprobe error: "@,
        AppError::IoError(_) => "IO error: "@,
        AppError::JsonError(_) => "JSON parsing error: "@,
        AppError::InvalidSegment(_) => "Invalid segment: "@,
        AppError::ConfigError(_) => "Configuration error: "@,
        AppError::ExportError(_) => "Export failed: "@,
        AppError::Other(_) => ""@,
    }
}

/// The detail text that `e` carries.
pub open spec fn error_detail(e: AppError) -> Seq<char> {
    match e {
        AppError::FileNotFound(s) => s@,
        AppError::InvalidVideo(s) => s@,
        AppError::FFmpegError(s) => s@,
        AppError::FFprobeError(s) => s@,
        AppError::IoError(s) => s@,
        AppError::JsonError(s) => s@,
        AppError::InvalidSegment(s) => s@,
        AppError::ConfigError(s) => s@,
        AppError::ExportError(s) => s@,
        AppError::Other(s) => s@,
    }
}

impl AppError {
    /// The text shown to the user for this error: the variant's prefix
    /// followed by its detail.
    pub fn message(&self) -> (m: String)
        ensures
            m@ == error_prefix(*self) + error_detail(*self),
    {
        let (prefix, detail): (&str, &String) = match self {
            AppError::FileNotFound(s) => ("File not found: ", s),
            AppError::InvalidVideo(s) => ("Invalid video file: ", s),
            AppError::FFmpegError(s) => ("FFmpeg error: ", s),
            AppError::FFprobeError(s) => ("FFprobe error: ", s),
            AppError::IoError(s) => ("IO error: ", s),
            AppError::JsonError(s) => ("JSON parsing error: ", s),
            AppError::InvalidSegment(s) => ("Invalid segment: ", s),
            AppError::ConfigError(s) => ("Configuration error: ", s),
            AppError::ExportError(s) => ("Export failed: ", s),
            AppError::Other(s) => ("", s),
        };
        let mut m: String = prefix.to_string();
        crate::text::push_str(&mut m, detail.as_str());
        m
    }
}

} // verus!
