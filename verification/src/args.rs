//! FFmpeg argument lists for stream-copy exports, re-encoded parts and the
//! steps of a smart cut. Time values arrive already rendered as text.
use vstd::prelude::*;
use crate::models::{AudioTrack, VideoCodecParams};
use crate::mp4::name_of;
use crate::text::{decimal, push_arg, push_string, strs, with_number, joined, owned, str_equal};

verus! {

/// The arguments that map output audio stream `k` and carry its title.
/// A generated file's audio is addressed by position (`0:a:k`), a source
/// file's by stream index (`0:i`).
pub open spec fn track_mapping(indices: Seq<usize>, tracks: Seq<&AudioTrack>, generated: bool, k: int) -> Seq<Seq<char>> {
    let target = if generated {
        "0:a:"@ + decimal(k as nat)
    } else {
        "0:"@ + decimal(indices[k] as nat)
    };
    let title = if k < tracks.len() {
        name_of(tracks[k].name)
    } else {
        None
    };
    seq!["-map"@, target] + match title {
        Some(t) => seq!["-metadata:s:a:"@ + decimal(k as nat), "title="@ + t],
        None => seq![],
    }
}

/// The mapping arguments of the first `n` audio streams.
pub open spec fn mappings_upto(indices: Seq<usize>, tracks: Seq<&AudioTrack>, generated: bool, n: int) -> Seq<Seq<char>>
    decreases n,
{
    if n <= 0 {
        seq![]
    } else {
        mappings_upto(indices, tracks, generated, n - 1) + track_mapping(indices, tracks, generated, n - 1)
    }
}

/// The arguments `add_audio_mappings_with_metadata` appends: `-an` without
/// audio streams, else each stream's mapping and title, then the flags that
/// keep titles and global metadata.
pub open spec fn audio_mapping_args(indices: Seq<usize>, tracks: Seq<&AudioTrack>, generated: bool) -> Seq<Seq<char>> {
    if indices.len() == 0 {
        seq!["-an"@]
    } else {
        mappings_upto(indices, tracks, generated, indices.len() as int) + seq![
            "-movflags"@,
            "+use_metadata_tags+faststart"@,
            "-map_metadata"@,
            "0"@,
        ]
    }
}

/// Appends the mapping of each audio stream (and its title) to `args`.
fn push_mappings(args: &mut Vec<String>, audio_stream_indices: &[usize], audio_tracks: &[&AudioTrack], is_generated_file: bool)
    ensures
        strs(final(args)@) == strs(old(args)@) + mappings_upto(audio_stream_indices@, audio_tracks@, is_generated_file, audio_stream_indices@.len() as int),
{
    let ghost start = strs(args@);
    let mut k: usize = 0;
    assert(start + mappings_upto(audio_stream_indices@, audio_tracks@, is_generated_file, 0) =~= start);
    while k < audio_stream_indices.len()
        invariant
            k <= audio_stream_indices@.len(),
            strs(args@) == start + mappings_upto(audio_stream_indices@, audio_tracks@, is_generated_file, k as int),
        decreases audio_stream_indices@.len() - k,
    {
        let ghost before = strs(args@);
        push_arg(args, "-map");
        let target: String = if is_generated_file {
            with_number("0:a:", k as u128)
        } else {
            with_number("0:", audio_stream_indices[k] as u128)
        };
        push_string(args, target);
        if k < audio_tracks.len() {
            match &audio_tracks[k].name {
                Some(name) => {
                    push_string(args, with_number("-metadata:s:a:", k as u128));
                    push_string(args, joined("title=", name.as_str()));
                },
                None => {},
            }
        }
        proof {
            let m = track_mapping(audio_stream_indices@, audio_tracks@, is_generated_file, k as int);
            assert(strs(args@) =~= before + m);
            assert(start + mappings_upto(audio_stream_indices@, audio_tracks@, is_generated_file, k + 1) =~= before + m);
        }
        k = k + 1;
    }
}

/// Appends the audio arguments of an export to `args`: `-an` when no audio
/// stream is selected; otherwise, per selected stream, a `-map` and (when the
/// track has a name) its title, then `-movflags +use_metadata_tags+faststart
/// -map_metadata 0`.
pub fn add_audio_mappings_with_metadata(args: &mut Vec<String>, audio_stream_indices: &[usize], audio_tracks: &[&AudioTrack], is_generated_file: bool)
    ensures
        strs(final(args)@) == strs(old(args)@) + audio_mapping_args(audio_stream_indices@, audio_tracks@, is_generated_file),
{
    let ghost start = strs(args@);
    if audio_stream_indices.len() == 0 {
        push_arg(args, "-an");
        assert(strs(args@) =~= start + seq!["-an"@]);
    } else {
        push_mappings(args, audio_stream_indices, audio_tracks, is_generated_file);
        let ghost mid = strs(args@);
        push_arg(args, "-movflags");
        push_arg(args, "+use_metadata_tags+faststart");
        push_arg(args, "-map_metadata");
        push_arg(args, "0");
        assert(strs(args@) =~= mid + seq!["-movflags"@, "+use_metadata_tags+faststart"@, "-map_metadata"@, "0"@]);
    }
}

} // verus!

verus! {

/// Arguments of a stream-copy export of one segment: seek to `start`, copy
/// `duration` of the first video stream and the selected audio, report
/// progress on stderr, overwrite `output_path`.
pub open spec fn export_args(input: Seq<char>, output: Seq<char>, start: Seq<char>, duration: Seq<char>, indices: Seq<usize>, tracks: Seq<&AudioTrack>) -> Seq<Seq<char>> {
    seq!["-ss"@, start, "-i"@, input, "-to"@, duration, "-map"@, "0:v:0"@] + audio_mapping_args(indices, tracks, false)
        + seq!["-c"@, "copy"@, "-y"@, "-progress"@, "pipe:2"@, output]
}

/// The arguments of a stream-copy export. `start` and `duration` are the
/// segment start and length rendered with three decimals.
pub fn build_export_args(input_path: &str, output_path: &str, start: &str, duration: &str, audio_stream_indices: &[usize], audio_tracks: &[&AudioTrack]) -> (args: Vec<String>)
    ensures
        strs(args@) == export_args(input_path@, output_path@, start@, duration@, audio_stream_indices@, audio_tracks@),
{
    let mut args: Vec<String> = Vec::new();
    push_arg(&mut args, "-ss");
    push_arg(&mut args, start);
    push_arg(&mut args, "-i");
    push_arg(&mut args, input_path);
    push_arg(&mut args, "-to");
    push_arg(&mut args, duration);
    push_arg(&mut args, "-map");
    push_arg(&mut args, "0:v:0");
    let ghost head = strs(args@);
    assert(head =~= seq!["-ss"@, start@, "-i"@, input_path@, "-to"@, duration@, "-map"@, "0:v:0"@]);
    add_audio_mappings_with_metadata(&mut args, audio_stream_indices, audio_tracks, false);
    let ghost mid = strs(args@);
    push_arg(&mut args, "-c");
    push_arg(&mut args, "copy");
    push_arg(&mut args, "-y");
    push_arg(&mut args, "-progress");
    push_arg(&mut args, "pipe:2");
    push_arg(&mut args, output_path);
    assert(strs(args@) =~= mid + seq!["-c"@, "copy"@, "-y"@, "-progress"@, "pipe:2"@, output_path@]);
    args
}

/// The extension of the input file, or `mp4` when it has none.
pub fn get_output_extension(input_path: &str) -> (ext: String)
    ensures
        ext@ == match crate::text::path_extension(input_path@) {
            Some(e) => e,
            None => "mp4"@,
        },
        crate::text::plain_file_name(input_path@) ==> ext@ == match crate::text::file_name_extension(input_path@) {
            Some(e) => e,
            None => "mp4"@,
        },
{
    match crate::text::file_extension(input_path) {
        Some(e) => e,
        None => crate::text::owned("mp4"),
    }
}

/// The software encoder used to re-encode parts of a video in `codec`.
pub open spec fn matching_encoder(codec: Seq<char>) -> Seq<char> {
    if codec == "h264"@ {
        "libx264"@
    } else if codec == "hevc"@ || codec == "h265"@ {
        "libx265"@
    } else if codec == "av1"@ {
        "libsvtav1"@
    } else if codec == "vp9"@ {
        "libvpx-vp9"@
    } else if codec == "vp8"@ {
        "libvpx"@
    } else {
        "libx264"@
    }
}

/// The software encoder used to re-encode parts of a video in `codec`.
pub fn get_matching_encoder(codec: &str) -> (e: String)
    ensures
        e@ == matching_encoder(codec@),
{
    if str_equal(codec, "h264") {
        owned("libx264")
    } else if str_equal(codec, "hevc") || str_equal(codec, "h265") {
        owned("libx265")
    } else if str_equal(codec, "av1") {
        owned("libsvtav1")
    } else if str_equal(codec, "vp9") {
        owned("libvpx-vp9")
    } else if str_equal(codec, "vp8") {
        owned("libvpx")
    } else {
        owned("libx264")
    }
}

/// The `-level` value for an H.264/HEVC level number: `1b` for 9, else the
/// number with one decimal digit (`31` is `3.1`).
pub open spec fn level_arg(level: u32) -> Seq<char> {
    if level == 9 {
        "1b"@
    } else {
        decimal((level / 10) as nat) + "."@ + decimal((level % 10) as nat)
    }
}

/// The `-level` value for an H.264/HEVC level number.
pub fn level_to_arg(level: u32) -> (s: String)
    ensures
        s@ == level_arg(level),
{
    if level == 9 {
        crate::text::owned("1b")
    } else {
        let mut s: String = crate::text::to_decimal((level / 10) as u128);
        crate::text::push_str(&mut s, ".");
        crate::text::push_decimal(&mut s, (level % 10) as u128);
        s
    }
}

/// The x264 profile named by a source profile, if any.
pub open spec fn mapped_profile(p: Seq<char>) -> Option<Seq<char>> {
    let l = crate::text::lowercase(p);
    if l == "high"@ {
        Some("high"@)
    } else if l == "main"@ {
        Some("main"@)
    } else if l == "baseline"@ || l == "constrained baseline"@ {
        Some("baseline"@)
    } else {
        None
    }
}

pub open spec fn opt_pair(flag: Seq<char>, v: Option<Seq<char>>) -> Seq<Seq<char>> {
    match v {
        Some(x) => seq![flag, x],
        None => seq![],
    }
}

/// The quality arguments for `encoder`, then, for x264/x265 with source
/// parameters, the profile (x264 only), level, pixel format (full-range
/// `yuvj` formats named as `yuv`) and colour range (`tv`/`pc` only).
pub open spec fn encoder_params(encoder: Seq<char>, hints: Option<VideoCodecParams>) -> Seq<Seq<char>> {
    let x26x = encoder == "libx264"@ || encoder == "libx265"@;
    let quality = if x26x {
        seq!["-preset"@, "medium"@, "-qp"@, "18"@]
    } else if encoder == "libsvtav1"@ {
        seq!["-preset"@, "6"@, "-crf"@, "20"@]
    } else if encoder == "libvpx-vp9"@ {
        seq!["-crf"@, "18"@, "-b:v"@, "0"@]
    } else {
        seq!["-qscale:v"@, "2"@]
    };
    match hints {
        Some(h) if x26x => {
            let profile = if encoder == "libx264"@ {
                match h.profile {
                    Some(p) => mapped_profile(p@),
                    None => None,
                }
            } else {
                None
            };
            let level = match h.level {
                Some(l) => Some(level_arg(l)),
                None => None,
            };
            let pix = match h.pix_fmt {
                Some(pf) => Some(crate::text::replace_all(pf@, "yuvj"@, "yuv"@)),
                None => None,
            };
            let range = match h.color_range {
                Some(cr) => if cr@ == "tv"@ || cr@ == "pc"@ { Some(cr@) } else { None },
                None => None,
            };
            quality + opt_pair("-profile:v"@, profile) + opt_pair("-level"@, level) + opt_pair("-pix_fmt"@, pix)
                + opt_pair("-color_range"@, range)
        },
        _ => quality,
    }
}

fn push_opt_pair(args: &mut Vec<String>, flag: &str, v: Option<String>)
    ensures
        strs(final(args)@) == strs(old(args)@) + opt_pair(flag@, name_of(v)),
{
    let ghost start = strs(args@);
    match v {
        Some(x) => {
            push_arg(args, flag);
            push_string(args, x);
        },
        None => {},
    }
    assert(strs(args@) =~= start + opt_pair(flag@, name_of(v)));
}

/// Appends the encoder's quality settings and, for x264/x265, the source
/// parameters that keep re-encoded parts compatible with copied ones.
pub fn add_encoder_params(args: &mut Vec<String>, encoder: &str, source_hints: Option<&VideoCodecParams>)
    ensures
        strs(final(args)@) == strs(old(args)@) + encoder_params(encoder@, match source_hints { Some(h) => Some(*h), None => None }),
{
    let ghost start = strs(args@);
    let is_x264: bool = str_equal(encoder, "libx264");
    let x26x: bool = is_x264 || str_equal(encoder, "libx265");
    if x26x {
        push_arg(args, "-preset");
        push_arg(args, "medium");
        push_arg(args, "-qp");
        push_arg(args, "18");
    } else if str_equal(encoder, "libsvtav1") {
        push_arg(args, "-preset");
        push_arg(args, "6");
        push_arg(args, "-crf");
        push_arg(args, "20");
    } else if str_equal(encoder, "libvpx-vp9") {
        push_arg(args, "-crf");
        push_arg(args, "18");
        push_arg(args, "-b:v");
        push_arg(args, "0");
    } else {
        push_arg(args, "-qscale:v");
        push_arg(args, "2");
    }
    let ghost after_quality = strs(args@);
    assert(after_quality =~= start + encoder_params(encoder@, None));
    let h: &VideoCodecParams = match source_hints {
        Some(h) => h,
        None => return,
    };
    if !x26x {
        return;
    }
    let profile: Option<String> = if is_x264 {
        match &h.profile {
            Some(p) => {
                let l: String = crate::text::to_lowercase(p.as_str());
                if str_equal(l.as_str(), "high") {
                    Some(owned("high"))
                } else if str_equal(l.as_str(), "main") {
                    Some(owned("main"))
                } else if str_equal(l.as_str(), "baseline") || str_equal(l.as_str(), "constrained baseline") {
                    Some(owned("baseline"))
                } else {
                    None
                }
            },
            None => None,
        }
    } else {
        None
    };
    push_opt_pair(args, "-profile:v", profile);
    let level: Option<String> = match h.level {
        Some(l) => Some(level_to_arg(l)),
        None => None,
    };
    push_opt_pair(args, "-level", level);
    proof {
        reveal_strlit("yuvj");
    }
    let pix: Option<String> = match &h.pix_fmt {
        Some(pf) => Some(crate::text::replace_text(pf.as_str(), "yuvj", "yuv")),
        None => None,
    };
    push_opt_pair(args, "-pix_fmt", pix);
    let range: Option<String> = match &h.color_range {
        Some(cr) => if str_equal(cr.as_str(), "tv") || str_equal(cr.as_str(), "pc") {
            Some(owned(cr.as_str()))
        } else {
            None
        },
        None => None,
    };
    push_opt_pair(args, "-color_range", range);
    assert(strs(args@) =~= start + encoder_params(encoder@, Some(*h)));
}

} // verus!

verus! {

pub open spec fn opt_text(v: Option<&str>) -> Option<Seq<char>> {
    match v {
        Some(s) => Some(s@),
        None => None,
    }
}

/// Arguments that re-encode one part of the source: seek the input to
/// `input_seek`, optionally seek the output further by `output_seek`, encode
/// `duration` of the first video stream with `encoder` and its parameters,
/// optionally force keyframes, and either copy the selected audio or drop it.
pub open spec fn encode_args(input: Seq<char>, output: Seq<char>, input_seek: Seq<char>, output_seek: Option<Seq<char>>, duration: Seq<char>, encoder: Seq<char>, indices: Seq<usize>, tracks: Seq<&AudioTrack>, force_keyframes: Option<Seq<char>>, with_audio: bool, hints: Option<VideoCodecParams>) -> Seq<Seq<char>> {
    seq!["-hide_banner"@, "-ss"@, input_seek, "-i"@, input] + opt_pair("-ss"@, output_seek) + seq![
        "-t"@,
        duration,
        "-c:v"@,
        encoder,
    ] + encoder_params(encoder, hints) + opt_pair("-force_key_frames"@, force_keyframes) + seq![
        "-map"@,
        "0:v:0"@,
        "-avoid_negative_ts"@,
        "make_zero"@,
    ] + (if with_audio {
        seq!["-c:a"@, "copy"@] + audio_mapping_args(indices, tracks, false)
    } else {
        seq!["-an"@]
    }) + seq!["-y"@, "-progress"@, "pipe:2"@, output]
}

fn push_opt_text(args: &mut Vec<String>, flag: &str, v: Option<&str>)
    ensures
        strs(final(args)@) == strs(old(args)@) + opt_pair(flag@, opt_text(v)),
{
    let ghost start = strs(args@);
    match v {
        Some(x) => {
            push_arg(args, flag);
            push_arg(args, x);
        },
        None => {},
    }
    assert(strs(args@) =~= start + opt_pair(flag@, opt_text(v)));
}

/// The arguments of one re-encoded part (`encode_segment`). The time values
/// are rendered with six decimals; `output_seek` is present only when the
/// output seek exceeds a millisecond.
pub fn build_encode_args(input_path: &str, output_path: &str, input_seek: &str, output_seek: Option<&str>, duration: &str, encoder: &str, audio_stream_indices: &[usize], audio_tracks: &[&AudioTrack], force_keyframes: Option<&str>, with_audio: bool, source_hints: Option<&VideoCodecParams>) -> (args: Vec<String>)
    ensures
        strs(args@) == encode_args(input_path@, output_path@, input_seek@, opt_text(output_seek), duration@, encoder@, audio_stream_indices@, audio_tracks@, opt_text(force_keyframes), with_audio, match source_hints { Some(h) => Some(*h), None => None }),
{
    let mut args: Vec<String> = Vec::new();
    push_arg(&mut args, "-hide_banner");
    push_arg(&mut args, "-ss");
    push_arg(&mut args, input_seek);
    push_arg(&mut args, "-i");
    push_arg(&mut args, input_path);
    let ghost a = strs(args@);
    push_opt_text(&mut args, "-ss", output_seek);
    let ghost b = strs(args@);
    push_arg(&mut args, "-t");
    push_arg(&mut args, duration);
    push_arg(&mut args, "-c:v");
    push_arg(&mut args, encoder);
    let ghost c = strs(args@);
    add_encoder_params(&mut args, encoder, source_hints);
    let ghost d = strs(args@);
    push_opt_text(&mut args, "-force_key_frames", force_keyframes);
    let ghost e = strs(args@);
    push_arg(&mut args, "-map");
    push_arg(&mut args, "0:v:0");
    push_arg(&mut args, "-avoid_negative_ts");
    push_arg(&mut args, "make_zero");
    let ghost f = strs(args@);
    if with_audio {
        push_arg(&mut args, "-c:a");
        push_arg(&mut args, "copy");
        let ghost g = strs(args@);
        add_audio_mappings_with_metadata(&mut args, audio_stream_indices, audio_tracks, false);
        assert(strs(args@) =~= f + (seq!["-c:a"@, "copy"@] + audio_mapping_args(audio_stream_indices@, audio_tracks@, false)));
    } else {
        push_arg(&mut args, "-an");
    }
    let ghost h = strs(args@);
    push_arg(&mut args, "-y");
    push_arg(&mut args, "-progress");
    push_arg(&mut args, "pipe:2");
    push_arg(&mut args, output_path);
    assert(strs(args@) =~= encode_args(input_path@, output_path@, input_seek@, opt_text(output_seek), duration@, encoder@, audio_stream_indices@, audio_tracks@, opt_text(force_keyframes), with_audio, match source_hints { Some(h) => Some(*h), None => None }));
    args
}

/// Arguments that copy the middle part (`copy_start`, `copy_duration`) of
/// the first video stream without audio into `output_path`.
pub fn build_copy_args(input_path: &str, output_path: &str, copy_start: &str, copy_duration: &str) -> (args: Vec<String>)
    ensures
        strs(args@) == seq!["-hide_banner"@, "-ss"@, copy_start@, "-i"@, input_path@, "-t"@, copy_duration@, "-map"@, "0:v:0"@, "-an"@, "-c"@, "copy"@, "-avoid_negative_ts"@, "make_zero"@, "-y"@, "-progress"@, "pipe:2"@, output_path@],
{
    let mut args: Vec<String> = Vec::new();
    push_arg(&mut args, "-hide_banner");
    push_arg(&mut args, "-ss");
    push_arg(&mut args, copy_start);
    push_arg(&mut args, "-i");
    push_arg(&mut args, input_path);
    push_arg(&mut args, "-t");
    push_arg(&mut args, copy_duration);
    push_arg(&mut args, "-map");
    push_arg(&mut args, "0:v:0");
    push_arg(&mut args, "-an");
    push_arg(&mut args, "-c");
    push_arg(&mut args, "copy");
    push_arg(&mut args, "-avoid_negative_ts");
    push_arg(&mut args, "make_zero");
    push_arg(&mut args, "-y");
    push_arg(&mut args, "-progress");
    push_arg(&mut args, "pipe:2");
    push_arg(&mut args, output_path);
    assert(strs(args@) =~= seq!["-hide_banner"@, "-ss"@, copy_start@, "-i"@, input_path@, "-t"@, copy_duration@, "-map"@, "0:v:0"@, "-an"@, "-c"@, "copy"@, "-avoid_negative_ts"@, "make_zero"@, "-y"@, "-progress"@, "pipe:2"@, output_path@]);
    args
}

/// Arguments that concatenate the video-only parts listed in `list_path`
/// into `output_path` by stream copy.
pub fn build_concat_args(list_path: &str, output_path: &str) -> (args: Vec<String>)
    ensures
        strs(args@) == seq!["-hide_banner"@, "-f"@, "concat"@, "-safe"@, "0"@, "-i"@, list_path@, "-map"@, "0:v"@, "-an"@, "-c"@, "copy"@, "-y"@, "-progress"@, "pipe:2"@, output_path@],
{
    let mut args: Vec<String> = Vec::new();
    push_arg(&mut args, "-hide_banner");
    push_arg(&mut args, "-f");
    push_arg(&mut args, "concat");
    push_arg(&mut args, "-safe");
    push_arg(&mut args, "0");
    push_arg(&mut args, "-i");
    push_arg(&mut args, list_path);
    push_arg(&mut args, "-map");
    push_arg(&mut args, "0:v");
    push_arg(&mut args, "-an");
    push_arg(&mut args, "-c");
    push_arg(&mut args, "copy");
    push_arg(&mut args, "-y");
    push_arg(&mut args, "-progress");
    push_arg(&mut args, "pipe:2");
    push_arg(&mut args, output_path);
    assert(strs(args@) =~= seq!["-hide_banner"@, "-f"@, "concat"@, "-safe"@, "0"@, "-i"@, list_path@, "-map"@, "0:v"@, "-an"@, "-c"@, "copy"@, "-y"@, "-progress"@, "pipe:2"@, output_path@]);
    args
}

/// Arguments that put the source's selected audio (from `start`, for
/// `duration`) over the concatenated video in `video_path`.
pub open spec fn mux_args(input: Seq<char>, video: Seq<char>, output: Seq<char>, start: Seq<char>, duration: Seq<char>, indices: Seq<usize>, tracks: Seq<&AudioTrack>) -> Seq<Seq<char>> {
    seq!["-hide_banner"@, "-ss"@, start, "-i"@, input, "-i"@, video, "-t"@, duration, "-map"@, "1:v:0"@]
        + mappings_upto(indices, tracks, false, indices.len() as int) + seq![
        "-c:v"@,
        "copy"@,
        "-c:a"@,
        "copy"@,
        "-avoid_negative_ts"@,
        "make_zero"@,
        "-movflags"@,
        "+use_metadata_tags+faststart"@,
        "-map_metadata"@,
        "0"@,
        "-y"@,
        "-progress"@,
        "pipe:2"@,
        output,
    ]
}

/// The arguments of the audio mux step of a smart cut.
pub fn build_mux_args(input_path: &str, video_path: &str, output_path: &str, start: &str, duration: &str, audio_stream_indices: &[usize], audio_tracks: &[&AudioTrack]) -> (args: Vec<String>)
    ensures
        strs(args@) == mux_args(input_path@, video_path@, output_path@, start@, duration@, audio_stream_indices@, audio_tracks@),
{
    let mut args: Vec<String> = Vec::new();
    push_arg(&mut args, "-hide_banner");
    push_arg(&mut args, "-ss");
    push_arg(&mut args, start);
    push_arg(&mut args, "-i");
    push_arg(&mut args, input_path);
    push_arg(&mut args, "-i");
    push_arg(&mut args, video_path);
    push_arg(&mut args, "-t");
    push_arg(&mut args, duration);
    push_arg(&mut args, "-map");
    push_arg(&mut args, "1:v:0");
    push_mappings(&mut args, audio_stream_indices, audio_tracks, false);
    let ghost mid = strs(args@);
    push_arg(&mut args, "-c:v");
    push_arg(&mut args, "copy");
    push_arg(&mut args, "-c:a");
    push_arg(&mut args, "copy");
    push_arg(&mut args, "-avoid_negative_ts");
    push_arg(&mut args, "make_zero");
    push_arg(&mut args, "-movflags");
    push_arg(&mut args, "+use_metadata_tags+faststart");
    push_arg(&mut args, "-map_metadata");
    push_arg(&mut args, "0");
    push_arg(&mut args, "-y");
    push_arg(&mut args, "-progress");
    push_arg(&mut args, "pipe:2");
    push_arg(&mut args, output_path);
    assert(strs(args@) =~= mux_args(input_path@, video_path@, output_path@, start@, duration@, audio_stream_indices@, audio_tracks@));
    args
}

/// Arguments that decode 0.6 s of `file` from `window_start`, failing on the
/// first decoding error (`validate_boundaries`).
pub fn build_boundary_check_args(file: &str, window_start: &str) -> (args: Vec<String>)
    ensures
        strs(args@) == seq!["-hide_banner"@, "-v"@, "error"@, "-xerror"@, "-err_detect"@, "explode"@, "-an"@, "-ss"@, window_start@, "-i"@, file@, "-t"@, "0.6"@, "-f"@, "null"@, "-"@],
{
    let mut args: Vec<String> = Vec::new();
    push_arg(&mut args, "-hide_banner");
    push_arg(&mut args, "-v");
    push_arg(&mut args, "error");
    push_arg(&mut args, "-xerror");
    push_arg(&mut args, "-err_detect");
    push_arg(&mut args, "explode");
    push_arg(&mut args, "-an");
    push_arg(&mut args, "-ss");
    push_arg(&mut args, window_start);
    push_arg(&mut args, "-i");
    push_arg(&mut args, file);
    push_arg(&mut args, "-t");
    push_arg(&mut args, "0.6");
    push_arg(&mut args, "-f");
    push_arg(&mut args, "null");
    push_arg(&mut args, "-");
    assert(strs(args@) =~= seq!["-hide_banner"@, "-v"@, "error"@, "-xerror"@, "-err_detect"@, "explode"@, "-an"@, "-ss"@, window_start@, "-i"@, file@, "-t"@, "0.6"@, "-f"@, "null"@, "-"@]);
    args
}

} // verus!

verus! {

/// The concat-demuxer line for one part: `file '<path>'` with backslashes
/// written as forward slashes.
pub open spec fn concat_entry(p: Seq<char>) -> Seq<char> {
    "file '"@ + crate::text::replace_all(p, "\\"@, "/"@) + "'"@
}

/// `items.join(sep)`.
pub open spec fn join_with(items: Seq<Seq<char>>, sep: Seq<char>) -> Seq<char>
    decreases items.len(),
{
    if items.len() == 0 {
        seq![]
    } else if items.len() == 1 {
        items[0]
    } else {
        join_with(items.drop_last(), sep) + sep + items.last()
    }
}

/// The concat list: one entry per part, separated by newlines.
pub open spec fn concat_list(parts: Seq<Seq<char>>) -> Seq<char> {
    join_with(parts.map_values(|p: Seq<char>| concat_entry(p)), "\n"@)
}

/// The text of the concat list for the parts, in order.
pub fn build_concat_list(parts: &Vec<String>) -> (text: String)
    ensures
        text@ == concat_list(strs(parts@)),
{
    proof {
        reveal_strlit("\\");
    }
    let ghost entries = strs(parts@).map_values(|p: Seq<char>| concat_entry(p));
    let mut text: String = String::new();
    let mut i: usize = 0;
    while i < parts.len()
        invariant
            i <= parts@.len(),
            entries == strs(parts@).map_values(|p: Seq<char>| concat_entry(p)),
            text@ == join_with(entries.subrange(0, i as int), "\n"@),
        decreases parts@.len() - i,
    {
        let ghost before = text@;
        if i > 0 {
            crate::text::push_str(&mut text, "\n");
        }
        crate::text::push_str(&mut text, "file '");
        proof {
            reveal_strlit("\\");
        }
        let fixed: String = crate::text::replace_text(parts[i].as_str(), "\\", "/");
        crate::text::push_str(&mut text, fixed.as_str());
        crate::text::push_str(&mut text, "'");
        proof {
            let sub = entries.subrange(0, i + 1);
            assert(sub.drop_last() =~= entries.subrange(0, i as int));
            assert(sub.last() == concat_entry(parts@[i as int]@));
            if i == 0 {
                assert(text@ =~= concat_entry(parts@[i as int]@));
            } else {
                assert(text@ =~= before + "\n"@ + concat_entry(parts@[i as int]@));
            }
        }
        i = i + 1;
    }
    assert(entries.subrange(0, parts@.len() as int) =~= entries);
    text
}

/// `n` rendered with at least three digits, zero-padded (`{:03}`).
pub open spec fn padded3(n: nat) -> Seq<char> {
    if n < 10 {
        "00"@ + decimal(n)
    } else if n < 100 {
        "0"@ + decimal(n)
    } else {
        decimal(n)
    }
}

/// The name of the `number`-th exported file: `<prefix>-<number:03>.<ext>`.
pub open spec fn output_file_name(prefix: Seq<char>, number: nat, ext: Seq<char>) -> Seq<char> {
    prefix + "-"@ + padded3(number) + "."@ + ext
}

/// The name of the `number`-th exported file.
pub fn build_output_file_name(prefix: &str, number: usize, ext: &str) -> (name: String)
    ensures
        name@ == output_file_name(prefix@, number as nat, ext@),
{
    let mut name: String = owned(prefix);
    crate::text::push_str(&mut name, "-");
    if number < 10 {
        crate::text::push_str(&mut name, "00");
    } else if number < 100 {
        crate::text::push_str(&mut name, "0");
    }
    crate::text::push_decimal(&mut name, number as u128);
    crate::text::push_str(&mut name, ".");
    crate::text::push_str(&mut name, ext);
    assert(name@ =~= output_file_name(prefix@, number as nat, ext@));
    name
}

} // verus!
