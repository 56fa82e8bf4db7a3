use video_cut::smart_cut::{after_join_check, JoinOutcome};
use video_cut::error::AppError;
use video_cut::fallback::{
    add_encoder_params as add_chain_params, build_attempt_args, build_concat_all_args, build_middle_copy_args,
    build_stream_copy_args, build_trim_args, chain_failure, first_attempt, next_attempt, tail_encoder_chain,
};
use video_cut::hwaccel::{build_hwaccel_args, get_decoder_fallback_chain, get_encoder_fallback_chain, select_hwaccel, HwAccelType, HwCapabilities};
use video_cut::listing::{codec_listing_ok, detect_codec_names, parse_codec_listing, parse_hwaccel_listing};
use video_cut::smart_cut::{join_check_inconclusive, joins_checked, smart_cut_steps, temp_file_name, SmartCutStep, TempCleanup};
use video_cut::text::{clean, contains_text, replace_text, to_wide};

fn caps(enc: &[&str], dec: &[&str], hw: &[&str]) -> HwCapabilities {
    HwCapabilities {
        encoders: enc.iter().map(|s| s.to_string()).collect(),
        decoders: dec.iter().map(|s| s.to_string()).collect(),
        hwaccels: hw.iter().map(|s| s.to_string()).collect(),
    }
}

#[test]
fn hwaccel_preference() {
    assert_eq!(select_hwaccel(&caps(&[], &[], &["dxva2", "cuda"])), HwAccelType::Cuda);
    assert_eq!(select_hwaccel(&caps(&[], &[], &["dxva2", "d3d11va"])), HwAccelType::D3d11va);
    assert_eq!(select_hwaccel(&caps(&[], &[], &["dxva2"])), HwAccelType::Dxva2);
    assert_eq!(select_hwaccel(&caps(&[], &[], &["qsv"])), HwAccelType::Off);
    assert_eq!(build_hwaccel_args(&HwAccelType::Cuda), vec!["-hwaccel", "cuda", "-hwaccel_output_format", "cuda"]);
    assert_eq!(build_hwaccel_args(&HwAccelType::Off), Vec::<String>::new());
}

#[test]
fn capability_lookups() {
    let c = caps(&["libx264"], &["h264_cuvid"], &["cuda"]);
    assert!(c.has_encoder("libx264") && !c.has_encoder("libx265"));
    assert!(c.has_decoder("h264_cuvid") && !c.has_decoder("hevc_cuvid"));
    assert!(c.has_hwaccel("cuda") && !c.has_hwaccel("dxva2"));
}

#[test]
fn fallback_chains() {
    let c = caps(&["h264_nvenc", "libx264", "libx265"], &["h264_cuvid", "libdav1d"], &["cuda"]);
    assert_eq!(get_encoder_fallback_chain("h264", &c), vec!["h264_nvenc", "libx264"]);
    assert_eq!(get_encoder_fallback_chain("hevc", &c), vec!["libx265"]);
    assert_eq!(get_encoder_fallback_chain("vp9", &c), vec!["libx264"]);
    assert_eq!(get_decoder_fallback_chain("h264", &c), vec![Some("h264_cuvid".to_string()), None]);
    assert_eq!(get_decoder_fallback_chain("av1", &c), vec![Some("libdav1d".to_string()), None]);
    assert_eq!(get_decoder_fallback_chain("mpeg2video", &c), vec![None]);
}

const ENCODERS: &str = "Encoders:\n V..... = Video\n A..... = Audio\n ------\n V....D libx264              libx264 H.264\n V....D h264_nvenc           NVIDIA NVENC\n A....D aac                  AAC\n S..... srt                  SubRip\n V....D libx264              duplicate\n";

#[test]
fn codec_listing() {
    let mut names = parse_codec_listing(ENCODERS.as_bytes());
    names.sort();
    assert_eq!(names, vec!["aac", "h264_nvenc", "libx264"]);
    assert!(codec_listing_ok(ENCODERS.as_bytes()));
    let mut d = detect_codec_names(ENCODERS.as_bytes()).unwrap();
    d.sort();
    assert_eq!(d, vec!["aac", "h264_nvenc", "libx264"]);
}

#[test]
fn hwaccel_listing() {
    let out = "Hardware acceleration methods:\r\ncuda\r\n  dxva2  \n\nd3d11va\ncuda\n";
    let mut names = parse_hwaccel_listing(out.as_bytes());
    names.sort();
    assert_eq!(names, vec!["cuda", "d3d11va", "dxva2"]);
}

#[test]
fn lossy_listing_bytes() {
    let mut bytes = b"Hardware acceleration methods:\ncu".to_vec();
    bytes.push(0xff);
    bytes.extend_from_slice(b"da\n");
    assert_eq!(parse_hwaccel_listing(&bytes), vec!["cu\u{fffd}da"]);
}

#[test]
fn text_helpers() {
    assert!(contains_text("abc 0x1 def", "0x1"));
    assert!(!contains_text("abc", "abcd"));
    assert!(contains_text("abc", ""));
    assert_eq!(replace_text("yuvj420p", "yuvj", "yuv"), "yuv420p");
    assert_eq!(replace_text("aaa", "aa", "b"), "ba");
    assert_eq!(clean("  name \u{0}\u{0}"), "name");
    assert_eq!(to_wide("a\u{1F600}é"), vec![0x61, 0xD83D, 0xDE00, 0xE9, 0]);
    assert_eq!(to_wide(""), vec![0]);
    let w: Vec<u16> = "C:\\Vidéos".encode_utf16().chain(std::iter::once(0)).collect();
    assert_eq!(to_wide("C:\\Vidéos"), w);
}

#[test]
fn attempt_order() {
    assert_eq!(first_attempt(2, 3), Some((0, 0)));
    assert_eq!(first_attempt(0, 3), None);
    assert_eq!(next_attempt(0, 0, 2, 3), Some((0, 1)));
    assert_eq!(next_attempt(0, 2, 2, 3), Some((1, 0)));
    assert_eq!(next_attempt(1, 2, 2, 3), None);
    let mut seen = vec![];
    let mut at = first_attempt(2, 3);
    while let Some((e, d)) = at {
        seen.push((e, d));
        at = next_attempt(e, d, 2, 3);
    }
    assert_eq!(seen, vec![(0, 0), (0, 1), (0, 2), (1, 0), (1, 1), (1, 2)]);
}

#[test]
fn attempt_arguments() {
    let a = build_attempt_args(Some("h264_cuvid"), &HwAccelType::Cuda, "1.000", "/in.mp4", "2.000", "h264_nvenc", "h264", Some("expr:eq(n,0)"), &[1, 2], "/out.mp4");
    assert_eq!(
        a,
        vec![
            "-hwaccel", "cuda", "-hwaccel_output_format", "cuda", "-c:v", "h264_cuvid", "-ss", "1.000", "-i", "/in.mp4",
            "-t", "2.000", "-c:v", "h264_nvenc", "-preset", "p4", "-cq", "18", "-force_key_frames", "expr:eq(n,0)",
            "-c:a", "copy", "-map", "0:v:0", "-map", "0:1", "-map", "0:2", "-y", "-progress", "pipe:2", "/out.mp4",
        ]
    );
    let b = build_attempt_args(Some("libdav1d"), &HwAccelType::Cuda, "0", "/in", "1", "libsvtav1", "av1", None, &[], "/o");
    assert_eq!(b, vec!["-c:v", "libdav1d", "-ss", "0", "-i", "/in", "-t", "1", "-c:v", "libsvtav1", "-preset", "6", "-qp", "20", "-c:a", "copy", "-map", "0:v:0", "-an", "-y", "-progress", "pipe:2", "/o"]);
    let mut p = Vec::new();
    add_chain_params(&mut p, "libx265", "hevc");
    assert_eq!(p, vec!["-preset", "medium", "-qp", "18"]);
}

#[test]
fn chain_results() {
    match chain_failure(None) {
        AppError::FFmpegError(m) => assert_eq!(m, "All encoder/decoder combinations in fallback chain failed"),
        other => panic!("{:?}", other),
    }
    match chain_failure(Some(AppError::FFmpegError("boom".into()))) {
        AppError::FFmpegError(m) => assert_eq!(m, "boom"),
        other => panic!("{:?}", other),
    }
    let chain = vec!["h264_nvenc".to_string(), "libx264".to_string()];
    assert_eq!(tail_encoder_chain(Some("libx264"), &chain), vec!["libx264"]);
    assert_eq!(tail_encoder_chain(None, &chain), chain);
}

#[test]
fn chain_export_arguments() {
    assert_eq!(build_stream_copy_args("/i", "/o", "1.000", "2.000", &[]), vec!["-ss", "1.000", "-i", "/i", "-to", "2.000", "-map", "0:v:0", "-an", "-c", "copy", "-y", "-progress", "pipe:2", "/o"]);
    assert_eq!(build_middle_copy_args("/i", "/o", "2", "3", &[4]), vec!["-ss", "2", "-i", "/i", "-t", "3", "-map", "0:v:0", "-map", "0:4", "-c", "copy", "-y", "-progress", "pipe:2", "/o"]);
    assert_eq!(build_concat_all_args("/l", "/o"), vec!["-f", "concat", "-safe", "0", "-fflags", "+genpts", "-i", "/l", "-map", "0:v", "-map", "0:a?", "-c", "copy", "-y", "/o"]);
    assert_eq!(build_trim_args("/c", "/o", "0.5", "3.0"), vec!["-ss", "0.5", "-i", "/c", "-t", "3.0", "-map", "0", "-c", "copy", "-y", "/o"]);
}

fn use_steps() {
    let all = vec![
        SmartCutStep::EncodeHead,
        SmartCutStep::CopyMiddle,
        SmartCutStep::EncodeTail,
        SmartCutStep::Concat,
        SmartCutStep::CheckJoins,
        SmartCutStep::MuxAudio,
    ];
    assert_eq!(smart_cut_steps(false, false, true, true), all);
    assert_eq!(
        smart_cut_steps(true, false, false, false),
        vec![SmartCutStep::EncodeTail, SmartCutStep::Concat, SmartCutStep::CheckJoins]
    );
}

#[test]
fn smart_cut_plan_steps() {
    use_steps();

    assert_eq!(joins_checked(false, false), 2);
    assert_eq!(joins_checked(true, false), 1);
    assert_eq!(joins_checked(true, true), 0);
    assert!(join_check_inconclusive("[out] Error opening output file -"));
    assert!(join_check_inconclusive("Option xerror is not known"));
    assert!(!join_check_inconclusive("Invalid NAL unit size"));
    assert_eq!(temp_file_name("start_encode", 1700000000123, "mp4"), "start_encode_1700000000123.mp4");
    let c = TempCleanup::new(vec!["/t/a.mp4".into(), "/t/b.mp4".into()]);
    assert_eq!(c.paths(), &vec!["/t/a.mp4".to_string(), "/t/b.mp4".to_string()]);
}

#[test]
fn error_messages() {
    let cases = [
        (AppError::FileNotFound("x".into()), "File not found: x"),
        (AppError::InvalidVideo("x".into()), "Invalid video file: x"),
        (AppError::FFmpegError("x".into()), "FFmpeg error: x"),
        (AppError::FFprobeError("x".into()), "FFprobe error: x"),
        (AppError::IoError("x".into()), "IO error: x"),
        (AppError::JsonError("x".into()), "JSON parsing error: x"),
        (AppError::InvalidSegment("x".into()), "Invalid segment: x"),
        (AppError::ConfigError("x".into()), "Configuration error: x"),
        (AppError::ExportError("x".into()), "Export failed: x"),
        (AppError::Other("x".into()), "x"),
    ];
    for (e, m) in cases {
        assert_eq!(e.message(), m);
    }
}

#[test]
fn what_follows_the_join_check() {
    assert_eq!(after_join_check(true, true), JoinOutcome::Continue);
    assert_eq!(after_join_check(true, false), JoinOutcome::Continue);
    assert_eq!(after_join_check(false, true), JoinOutcome::FullEncode { remove_output: false });
    assert_eq!(after_join_check(false, false), JoinOutcome::FullEncode { remove_output: true });
}
