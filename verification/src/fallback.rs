//! Re-encoding with a chain of encoders and decoders: each encoder is
//! tried with each decoder in turn (encoder-major order) until one run
//! succeeds.
use vstd::prelude::*;
use crate::error::AppError;
use crate::hwaccel::{
    build_hwaccel_args, encoder_codec, is_nvenc, lemma_encoder_codec_inverse, lemma_names_distinct, HwAccelType,
};
use crate::text::{contains_text, decimal, has_infix, owned, push_arg, push_string, str_equal, strs, with_number};

verus! {

/// The quality arguments for an encoder of the hardware-aware chain: the
/// NVENC encoders at preset `p4` and constant quality 18, x264/x265 at
/// preset `medium` and QP 18, SVT-AV1 at preset 6 and QP 20, VP9 at CRF 18
/// without a bit-rate cap, anything else at `-qscale:v 2`.
pub open spec fn chain_encoder_params(encoder: Seq<char>) -> Seq<Seq<char>> {
    if encoder == "h264_nvenc"@ || encoder == "hevc_nvenc"@ || encoder == "av1_nvenc"@ {
        seq!["-preset"@, "p4"@, "-cq"@, "18"@]
    } else if encoder == "libx264"@ || encoder == "libx265"@ {
        seq!["-preset"@, "medium"@, "-qp"@, "18"@]
    } else if encoder == "libsvtav1"@ {
        seq!["-preset"@, "6"@, "-qp"@, "20"@]
    } else if encoder == "libvpx-vp9"@ {
        seq!["-crf"@, "18"@, "-b:v"@, "0"@]
    } else {
        seq!["-qscale:v"@, "2"@]
    }
}

/// Appends the quality arguments for `encoder` (see `chain_encoder_params`).
pub fn add_encoder_params(args: &mut Vec<String>, encoder: &str, video_codec: &str)
    ensures
        strs(final(args)@) == strs(old(args)@) + chain_encoder_params(encoder@),
{
    let ghost before = strs(args@);
    if str_equal(encoder, "h264_nvenc") || str_equal(encoder, "hevc_nvenc") || str_equal(encoder, "av1_nvenc") {
        push_arg(args, "-preset");
        push_arg(args, "p4");
        push_arg(args, "-cq");
        push_arg(args, "18");
    } else if str_equal(encoder, "libx264") || str_equal(encoder, "libx265") {
        push_arg(args, "-preset");
        push_arg(args, "medium");
        push_arg(args, "-qp");
        push_arg(args, "18");
    } else if str_equal(encoder, "libsvtav1") {
        push_arg(args, "-preset");
        push_arg(args, "6");
        push_arg(args, "-qp");
        push_arg(args, "20");
    } else if str_equal(encoder, "libvpx-vp9") {
        push_arg(args, "-crf");
        push_arg(args, "18");
        push_arg(args, "-b:v");
        push_arg(args, "0");
    } else {
        push_arg(args, "-qscale:v");
        push_arg(args, "2");
    }
    assert(strs(args@) =~= before + chain_encoder_params(encoder@));
}

/// The quality arguments follow the encoder's kind: every NVENC encoder
/// gets preset `p4` at constant quality 18; the software H.264 and HEVC
/// encoders preset `medium` at QP 18; the software AV1 encoder preset 6 at
/// QP 20; the VP9 encoder CRF 18 without a bit-rate cap; and only an
/// encoder outside that list (VP8's among them) gets `-qscale:v 2`.
pub proof fn lemma_encoder_params_by_kind(encoder: Seq<char>)
    ensures
        encoder_codec(encoder) is Some && is_nvenc(encoder) ==> chain_encoder_params(encoder) == seq![
            "-preset"@,
            "p4"@,
            "-cq"@,
            "18"@,
        ],
        (encoder_codec(encoder) == Some("h264"@) || encoder_codec(encoder) == Some("hevc"@)) && !is_nvenc(encoder)
            ==> chain_encoder_params(encoder) == seq!["-preset"@, "medium"@, "-qp"@, "18"@],
        encoder_codec(encoder) == Some("av1"@) && !is_nvenc(encoder) ==> chain_encoder_params(encoder) == seq![
            "-preset"@,
            "6"@,
            "-qp"@,
            "20"@,
        ],
        encoder_codec(encoder) == Some("vp9"@) ==> chain_encoder_params(encoder) == seq!["-crf"@, "18"@, "-b:v"@, "0"@],
        encoder_codec(encoder) is None || encoder_codec(encoder) == Some("vp8"@) ==> chain_encoder_params(encoder)
            == seq!["-qscale:v"@, "2"@],
{
    lemma_names_distinct();
    lemma_encoder_codec_inverse(encoder);
}

/// A decoder is a hardware (CUVID) decoder.
pub open spec fn is_hw_decoder(decoder: Option<Seq<char>>) -> bool {
    match decoder {
        Some(d) => has_infix(d, "cuvid"@),
        None => false,
    }
}

/// The decoder arguments of an attempt: the hardware-acceleration flags
/// then `-c:v <decoder>` for a CUVID decoder, `-c:v <decoder>` for another
/// named decoder, nothing for the default decoder.
pub open spec fn decoder_args(decoder: Option<Seq<char>>, hw: Seq<Seq<char>>) -> Seq<Seq<char>> {
    match decoder {
        Some(d) => if has_infix(d, "cuvid"@) { hw + seq!["-c:v"@, d] } else { seq!["-c:v"@, d] },
        None => seq![],
    }
}

/// The audio arguments of an attempt: `-an` without audio streams, else a
/// `-map 0:<i>` pair per stream.
pub open spec fn stream_maps(indices: Seq<usize>, n: int) -> Seq<Seq<char>>
    decreases n,
{
    if n <= 0 {
        seq![]
    } else {
        stream_maps(indices, n - 1) + seq!["-map"@, "0:"@ + decimal(indices[n - 1] as nat)]
    }
}

/// The arguments of one encoding attempt; `hw` are the hardware
/// acceleration arguments for the machine, `start` and `duration` the
/// rendered times.
pub open spec fn attempt_args(
    decoder: Option<Seq<char>>,
    hw: Seq<Seq<char>>,
    start: Seq<char>,
    input: Seq<char>,
    duration: Seq<char>,
    encoder: Seq<char>,
    force_keyframes: Option<Seq<char>>,
    indices: Seq<usize>,
    output: Seq<char>,
) -> Seq<Seq<char>> {
    decoder_args(decoder, hw)
        + seq!["-ss"@, start, "-i"@, input, "-t"@, duration, "-c:v"@, encoder]
        + chain_encoder_params(encoder)
        + match force_keyframes { Some(k) => seq!["-force_key_frames"@, k], None => seq![] }
        + seq!["-c:a"@, "copy"@, "-map"@, "0:v:0"@]
        + audio_maps_or_none(indices)
        + seq!["-y"@, "-progress"@, "pipe:2"@, output]
}

fn push_decoder_args(args: &mut Vec<String>, decoder: Option<&str>, hwaccel: &HwAccelType)
    ensures
        strs(final(args)@) == strs(old(args)@) + decoder_args(
            match decoder { Some(d) => Some(d@), None => None },
            crate::hwaccel::hwaccel_args(*hwaccel),
        ),
{
    let ghost before = strs(args@);
    match decoder {
        Some(d) => {
            if contains_text(d, "cuvid") {
                let hw: Vec<String> = build_hwaccel_args(hwaccel);
                let n: usize = hw.len();
                let mut i: usize = 0;
                while i < n
                    invariant
                        i <= n,
                        n == hw@.len(),
                        strs(args@) == before + strs(hw@).subrange(0, i as int),
                    decreases n - i,
                {
                    push_arg(args, hw[i].as_str());
                    assert(strs(hw@)[i as int] == hw@[i as int]@);
                    assert(strs(args@) =~= before + strs(hw@).subrange(0, i as int + 1));
                    i = i + 1;
                }
                assert(strs(hw@).subrange(0, n as int) =~= strs(hw@));
            }
            push_arg(args, "-c:v");
            push_arg(args, d);
        },
        None => {},
    }
    assert(strs(args@) =~= before + decoder_args(
        match decoder { Some(d) => Some(d@), None => None },
        crate::hwaccel::hwaccel_args(*hwaccel),
    ));
}

fn push_audio_args(args: &mut Vec<String>, audio_stream_indices: &[usize])
    ensures
        strs(final(args)@) == strs(old(args)@) + audio_maps_or_none(audio_stream_indices@),
{
    let ghost a3 = strs(args@);
    if audio_stream_indices.len() == 0 {
        push_arg(args, "-an");
    } else {
        let n: usize = audio_stream_indices.len();
        let mut i: usize = 0;
        assert(a3 + stream_maps(audio_stream_indices@, 0) =~= a3);
        while i < n
            invariant
                i <= n,
                n == audio_stream_indices@.len(),
                strs(args@) == a3 + stream_maps(audio_stream_indices@, i as int),
            decreases n - i,
        {
            push_arg(args, "-map");
            push_string(args, with_number("0:", audio_stream_indices[i] as u128));
            assert(strs(args@) =~= a3 + stream_maps(audio_stream_indices@, i as int + 1));
            i = i + 1;
        }
    }
}

/// The arguments of one encoding attempt (see `attempt_args`).
pub fn build_attempt_args(
    decoder: Option<&str>,
    hwaccel: &HwAccelType,
    start: &str,
    input_path: &str,
    duration: &str,
    encoder: &str,
    video_codec: &str,
    force_keyframes: Option<&str>,
    audio_stream_indices: &[usize],
    output_path: &str,
) -> (args: Vec<String>)
    ensures
        strs(args@) == attempt_args(
            match decoder { Some(d) => Some(d@), None => None },
            crate::hwaccel::hwaccel_args(*hwaccel),
            start@,
            input_path@,
            duration@,
            encoder@,
            match force_keyframes { Some(k) => Some(k@), None => None },
            audio_stream_indices@,
            output_path@,
        ),
{
    let mut args: Vec<String> = Vec::new();
    push_decoder_args(&mut args, decoder, hwaccel);
    let ghost a0 = strs(args@);
    push_arg(&mut args, "-ss");
    push_arg(&mut args, start);
    push_arg(&mut args, "-i");
    push_arg(&mut args, input_path);
    push_arg(&mut args, "-t");
    push_arg(&mut args, duration);
    push_arg(&mut args, "-c:v");
    push_arg(&mut args, encoder);
    let ghost a1 = strs(args@);
    assert(a1 =~= a0 + seq!["-ss"@, start@, "-i"@, input_path@, "-t"@, duration@, "-c:v"@, encoder@]);
    add_encoder_params(&mut args, encoder, video_codec);
    let ghost a2 = strs(args@);
    match force_keyframes {
        Some(k) => {
            push_arg(&mut args, "-force_key_frames");
            push_arg(&mut args, k);
        },
        None => {},
    }
    let ghost a3 = strs(args@);
    assert(a3 =~= a2 + match force_keyframes { Some(k) => seq!["-force_key_frames"@, k@], None => seq![] });
    push_arg(&mut args, "-c:a");
    push_arg(&mut args, "copy");
    push_arg(&mut args, "-map");
    push_arg(&mut args, "0:v:0");
    let ghost a4 = strs(args@);
    assert(a4 =~= a3 + seq!["-c:a"@, "copy"@, "-map"@, "0:v:0"@]);
    push_audio_args(&mut args, audio_stream_indices);
    let ghost a5 = strs(args@);
    push_arg(&mut args, "-y");
    push_arg(&mut args, "-progress");
    push_arg(&mut args, "pipe:2");
    push_arg(&mut args, output_path);
    assert(strs(args@) =~= a5 + seq!["-y"@, "-progress"@, "pipe:2"@, output_path@]);
    args
}

/// The first attempt: the first encoder with the first decoder, if both
/// chains are non-empty.
pub fn first_attempt(encoder_count: usize, decoder_count: usize) -> (r: Option<(usize, usize)>)
    ensures
        r == (if encoder_count > 0 && decoder_count > 0 { Some((0usize, 0usize)) } else { None }),
{
    if encoder_count > 0 && decoder_count > 0 { Some((0, 0)) } else { None }
}

/// The attempt after a failed one: the next decoder with the same encoder,
/// else the first decoder with the next encoder, else none.
pub fn next_attempt(enc_idx: usize, dec_idx: usize, encoder_count: usize, decoder_count: usize) -> (r: Option<(usize, usize)>)
    requires
        enc_idx < encoder_count,
        dec_idx < decoder_count,
    ensures
        r == (if dec_idx + 1 < decoder_count {
            Some((enc_idx, (dec_idx + 1) as usize))
        } else if enc_idx + 1 < encoder_count {
            Some(((enc_idx + 1) as usize, 0usize))
        } else {
            None
        }),
{
    if dec_idx + 1 < decoder_count {
        Some((enc_idx, dec_idx + 1))
    } else if enc_idx + 1 < encoder_count {
        Some((enc_idx + 1, 0))
    } else {
        None
    }
}

/// The attempts enumerate every encoder/decoder pair, encoder-major: the
/// `k`-th attempt is encoder `k / decoders`, decoder `k % decoders`, and the
/// one after it is the `k + 1`-th, until all pairs were tried.
pub proof fn lemma_attempts_in_order(k: int, encoder_count: int, decoder_count: int)
    requires
        0 <= k,
        decoder_count > 0,
        k < encoder_count * decoder_count,
    ensures
        k / decoder_count < encoder_count,
        ({
            let e = k / decoder_count;
            let d = k % decoder_count;
            if d + 1 < decoder_count {
                (k + 1) / decoder_count == e && (k + 1) % decoder_count == d + 1
            } else if e + 1 < encoder_count {
                (k + 1) / decoder_count == e + 1 && (k + 1) % decoder_count == 0
            } else {
                k + 1 == encoder_count * decoder_count
            }
        }),
{
    let n = decoder_count;
    let e = k / n;
    let d = k % n;
    assert(k == e * n + d && 0 <= d < n) by (nonlinear_arith)
        requires
            n > 0,
            e == k / n,
            d == k % n,
    ;
    assert(e < encoder_count) by (nonlinear_arith)
        requires
            k == e * n + d,
            0 <= d,
            k < encoder_count * n,
            n > 0,
    ;
    if d + 1 < n {
        vstd::arithmetic::div_mod::lemma_fundamental_div_mod_converse(k + 1, n, e, d + 1);
    } else {
        assert(k + 1 == (e + 1) * n) by (nonlinear_arith)
            requires
                k == e * n + d,
                d + 1 == n,
        ;
        vstd::arithmetic::div_mod::lemma_fundamental_div_mod_converse(k + 1, n, e + 1, 0);
        if e + 1 >= encoder_count {
            assert((e + 1) * n >= encoder_count * n) by (nonlinear_arith)
                requires
                    e + 1 >= encoder_count,
                    n > 0,
            ;
        }
    }
}

/// The error when every attempt failed: the last attempt's error, or, with
/// no attempt at all, an FFmpeg error saying that all combinations failed.
pub fn chain_failure(last_error: Option<AppError>) -> (e: AppError)
    ensures
        match last_error {
            Some(x) => e == x,
            None => e matches AppError::FFmpegError(m)
                && m@ == "All encoder/decoder combinations in fallback chain failed"@,
        },
{
    match last_error {
        Some(x) => x,
        None => AppError::FFmpegError(owned("All encoder/decoder combinations in fallback chain failed")),
    }
}

/// The audio arguments of the chain-based export: `-an` without audio
/// streams, else a `-map 0:<i>` pair per stream.
pub open spec fn audio_maps_or_none(indices: Seq<usize>) -> Seq<Seq<char>> {
    if indices.len() == 0 { seq!["-an"@] } else { stream_maps(indices, indices.len() as int) }
}

/// The encoders tried for the tail: only the one that encoded the head,
/// when the head was encoded; else the whole chain.
pub fn tail_encoder_chain(working_encoder: Option<&str>, chain: &Vec<String>) -> (r: Vec<String>)
    ensures
        strs(r@) == match working_encoder {
            Some(e) => seq![e@],
            None => strs(chain@),
        },
{
    match working_encoder {
        Some(e) => {
            let mut r: Vec<String> = Vec::new();
            push_arg(&mut r, e);
            assert(strs(r@) =~= seq![e@]);
            r
        },
        None => {
            let n: usize = chain.len();
            let mut r: Vec<String> = Vec::new();
            let mut i: usize = 0;
            while i < n
                invariant
                    i <= n,
                    n == chain@.len(),
                    strs(r@) == strs(chain@).subrange(0, i as int),
                decreases n - i,
            {
                push_arg(&mut r, chain[i].as_str());
                assert(strs(r@) =~= strs(chain@).subrange(0, i as int + 1));
                i = i + 1;
            }
            assert(strs(chain@).subrange(0, n as int) =~= strs(chain@));
            r
        },
    }
}

/// Stream-copy export arguments of the chain-based exporter: from `start`
/// for `duration` (both rendered), first video stream and the audio streams.
pub fn build_stream_copy_args(input_path: &str, output_path: &str, start: &str, duration: &str, audio_stream_indices: &[usize]) -> (args: Vec<String>)
    ensures
        strs(args@) == seq!["-ss"@, start@, "-i"@, input_path@, "-to"@, duration@, "-map"@, "0:v:0"@]
            + audio_maps_or_none(audio_stream_indices@)
            + seq!["-c"@, "copy"@, "-y"@, "-progress"@, "pipe:2"@, output_path@],
{
    let mut args: Vec<String> = Vec::new();
    push_arg(&mut args, "-ss");
    push_arg(&mut args, start);
    push_arg(&mut args, "-i");
    push_arg(&mut args, input_path);
    push_arg(&mut args, "-to");
    push_arg(&mut args, duration);
    push_arg(&mut args, "-map");
    push_arg(&mut args, "0:v:0");
    push_audio_args(&mut args, audio_stream_indices);
    let ghost mid = strs(args@);
    push_arg(&mut args, "-c");
    push_arg(&mut args, "copy");
    push_arg(&mut args, "-y");
    push_arg(&mut args, "-progress");
    push_arg(&mut args, "pipe:2");
    push_arg(&mut args, output_path);
    assert(strs(args@) =~= mid + seq!["-c"@, "copy"@, "-y"@, "-progress"@, "pipe:2"@, output_path@]);
    args
}

/// Arguments that copy the middle part with its audio streams.
pub fn build_middle_copy_args(input_path: &str, output_path: &str, copy_start: &str, copy_duration: &str, audio_stream_indices: &[usize]) -> (args: Vec<String>)
    ensures
        strs(args@) == seq!["-ss"@, copy_start@, "-i"@, input_path@, "-t"@, copy_duration@, "-map"@, "0:v:0"@]
            + audio_maps_or_none(audio_stream_indices@)
            + seq!["-c"@, "copy"@, "-y"@, "-progress"@, "pipe:2"@, output_path@],
{
    let mut args: Vec<String> = Vec::new();
    push_arg(&mut args, "-ss");
    push_arg(&mut args, copy_start);
    push_arg(&mut args, "-i");
    push_arg(&mut args, input_path);
    push_arg(&mut args, "-t");
    push_arg(&mut args, copy_duration);
    push_arg(&mut args, "-map");
    push_arg(&mut args, "0:v:0");
    push_audio_args(&mut args, audio_stream_indices);
    let ghost mid = strs(args@);
    push_arg(&mut args, "-c");
    push_arg(&mut args, "copy");
    push_arg(&mut args, "-y");
    push_arg(&mut args, "-progress");
    push_arg(&mut args, "pipe:2");
    push_arg(&mut args, output_path);
    assert(strs(args@) =~= mid + seq!["-c"@, "copy"@, "-y"@, "-progress"@, "pipe:2"@, output_path@]);
    args
}

/// Arguments that concatenate the parts listed in `list_path`, video and
/// any audio, regenerating timestamps.
pub fn build_concat_all_args(list_path: &str, output_path: &str) -> (args: Vec<String>)
    ensures
        strs(args@) == seq!["-f"@, "concat"@, "-safe"@, "0"@, "-fflags"@, "+genpts"@, "-i"@, list_path@,
            "-map"@, "0:v"@, "-map"@, "0:a?"@, "-c"@, "copy"@, "-y"@, output_path@],
{
    let mut args: Vec<String> = Vec::new();
    push_arg(&mut args, "-f");
    push_arg(&mut args, "concat");
    push_arg(&mut args, "-safe");
    push_arg(&mut args, "0");
    push_arg(&mut args, "-fflags");
    push_arg(&mut args, "+genpts");
    push_arg(&mut args, "-i");
    push_arg(&mut args, list_path);
    push_arg(&mut args, "-map");
    push_arg(&mut args, "0:v");
    push_arg(&mut args, "-map");
    push_arg(&mut args, "0:a?");
    push_arg(&mut args, "-c");
    push_arg(&mut args, "copy");
    push_arg(&mut args, "-y");
    push_arg(&mut args, output_path);
    args
}

/// Arguments that cut the concatenated file to the segment: from
/// `trim_start` for `trim_duration` (both rendered), every stream copied.
pub fn build_trim_args(concat_path: &str, output_path: &str, trim_start: &str, trim_duration: &str) -> (args: Vec<String>)
    ensures
        strs(args@) == seq!["-ss"@, trim_start@, "-i"@, concat_path@, "-t"@, trim_duration@, "-map"@, "0"@,
            "-c"@, "copy"@, "-y"@, output_path@],
{
    let mut args: Vec<String> = Vec::new();
    push_arg(&mut args, "-ss");
    push_arg(&mut args, trim_start);
    push_arg(&mut args, "-i");
    push_arg(&mut args, concat_path);
    push_arg(&mut args, "-t");
    push_arg(&mut args, trim_duration);
    push_arg(&mut args, "-map");
    push_arg(&mut args, "0");
    push_arg(&mut args, "-c");
    push_arg(&mut args, "copy");
    push_arg(&mut args, "-y");
    push_arg(&mut args, output_path);
    args
}

} // verus!
