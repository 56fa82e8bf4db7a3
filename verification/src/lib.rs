//! Verified core of a lossless video-cutting tool: MP4 track-name parsing,
//! keyframe-aware cut planning, FFmpeg argument construction, waveform
//! caching rules and configuration/session validation.
pub mod args;
pub mod bisect;
pub mod cachekey;
pub mod config;
pub mod error;
pub mod export;
pub mod fallback;
pub mod floatbits;
pub mod hwaccel;
pub mod keyframes;
pub mod listing;
pub mod models;
pub mod points;
pub mod progress;
pub mod mp4;
pub mod probe;
pub mod registry;
pub mod session;
pub mod smart_cut;
pub mod text;
pub mod waveform;
