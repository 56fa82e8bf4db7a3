use video_cut::args::{
    add_audio_mappings_with_metadata, add_encoder_params, build_boundary_check_args, build_concat_args,
    build_concat_list, build_copy_args, build_encode_args, build_export_args, build_mux_args,
    build_output_file_name, get_matching_encoder, get_output_extension, level_to_arg,
};
use video_cut::models::{AudioTrack, VideoCodecParams};

fn track(name: Option<&str>) -> AudioTrack {
    AudioTrack { index: 1, track_id: Some(1), codec: "aac".into(), channels: 2, name: name.map(|s| s.into()) }
}

#[test]
fn levels() {
    assert_eq!(level_to_arg(31), "3.1");
    assert_eq!(level_to_arg(40), "4.0");
    assert_eq!(level_to_arg(9), "1b");
    assert_eq!(level_to_arg(51), "5.1");
}

#[test]
fn matching_encoders() {
    assert_eq!(get_matching_encoder("h264"), "libx264");
    assert_eq!(get_matching_encoder("hevc"), "libx265");
    assert_eq!(get_matching_encoder("h265"), "libx265");
    assert_eq!(get_matching_encoder("av1"), "libsvtav1");
    assert_eq!(get_matching_encoder("vp9"), "libvpx-vp9");
    assert_eq!(get_matching_encoder("vp8"), "libvpx");
    assert_eq!(get_matching_encoder("mpeg4"), "libx264");
    assert_eq!(get_matching_encoder("prores"), "libx264");
}

#[test]
fn output_extension() {
    assert_eq!(get_output_extension("/v/clip.mkv"), "mkv");
    assert_eq!(get_output_extension("/v/clip"), "mp4");
}

#[test]
fn encoder_params_with_hints() {
    let hints = VideoCodecParams {
        profile: Some("Constrained Baseline".into()),
        level: Some(31),
        pix_fmt: Some("yuvj420p".into()),
        color_range: Some("pc".into()),
    };
    let mut a = Vec::new();
    add_encoder_params(&mut a, "libx264", Some(&hints));
    assert_eq!(a, vec!["-preset", "medium", "-qp", "18", "-profile:v", "baseline", "-level", "3.1", "-pix_fmt", "yuv420p", "-color_range", "pc"]);
    let mut b = Vec::new();
    add_encoder_params(&mut b, "libx265", Some(&hints));
    assert_eq!(b, vec!["-preset", "medium", "-qp", "18", "-level", "3.1", "-pix_fmt", "yuv420p", "-color_range", "pc"]);
    let mut c = Vec::new();
    add_encoder_params(&mut c, "libsvtav1", Some(&hints));
    assert_eq!(c, vec!["-preset", "6", "-crf", "20"]);
    let mut d = Vec::new();
    add_encoder_params(&mut d, "libvpx-vp9", None);
    assert_eq!(d, vec!["-crf", "18", "-b:v", "0"]);
    let mut e = Vec::new();
    add_encoder_params(&mut e, "mpeg4", None);
    assert_eq!(e, vec!["-qscale:v", "2"]);
    let odd = VideoCodecParams { profile: Some("High 10".into()), level: None, pix_fmt: None, color_range: Some("unknown".into()) };
    let mut f = Vec::new();
    add_encoder_params(&mut f, "libx264", Some(&odd));
    assert_eq!(f, vec!["-preset", "medium", "-qp", "18"]);
}

#[test]
fn audio_mappings() {
    let t1 = track(Some("Main"));
    let t2 = track(None);
    let mut a = vec!["x".to_string()];
    add_audio_mappings_with_metadata(&mut a, &[1, 3], &[&t1, &t2], false);
    assert_eq!(a, vec!["x", "-map", "0:1", "-metadata:s:a:0", "title=Main", "-map", "0:3", "-movflags", "+use_metadata_tags+faststart", "-map_metadata", "0"]);
    let mut b = Vec::new();
    add_audio_mappings_with_metadata(&mut b, &[1, 3], &[&t1], true);
    assert_eq!(b, vec!["-map", "0:a:0", "-metadata:s:a:0", "title=Main", "-map", "0:a:1", "-movflags", "+use_metadata_tags+faststart", "-map_metadata", "0"]);
    let mut c = Vec::new();
    add_audio_mappings_with_metadata(&mut c, &[], &[], false);
    assert_eq!(c, vec!["-an"]);
}

#[test]
fn export_and_step_arguments() {
    let t = track(Some("A"));
    let e = build_export_args("/in.mp4", "/out.mp4", "1.000", "2.000", &[1], &[&t]);
    assert_eq!(
        e,
        vec![
            "-ss", "1.000", "-i", "/in.mp4", "-to", "2.000", "-map", "0:v:0", "-map", "0:1", "-metadata:s:a:0",
            "title=A", "-movflags", "+use_metadata_tags+faststart", "-map_metadata", "0", "-c", "copy", "-y",
            "-progress", "pipe:2", "/out.mp4",
        ]
    );
    let c = build_copy_args("/in.mp4", "/mid.mp4", "2.0", "3.0");
    assert_eq!(c, vec!["-hide_banner", "-ss", "2.0", "-i", "/in.mp4", "-t", "3.0", "-map", "0:v:0", "-an", "-c", "copy", "-avoid_negative_ts", "make_zero", "-y", "-progress", "pipe:2", "/mid.mp4"]);
    let k = build_concat_args("/list.txt", "/v.mp4");
    assert_eq!(k, vec!["-hide_banner", "-f", "concat", "-safe", "0", "-i", "/list.txt", "-map", "0:v", "-an", "-c", "copy", "-y", "-progress", "pipe:2", "/v.mp4"]);
    let v = build_boundary_check_args("/v.mp4", "0.800000");
    assert_eq!(v, vec!["-hide_banner", "-v", "error", "-xerror", "-err_detect", "explode", "-an", "-ss", "0.800000", "-i", "/v.mp4", "-t", "0.6", "-f", "null", "-"]);
    let m = build_mux_args("/in.mp4", "/v.mp4", "/out.mp4", "1.0", "4.0", &[2], &[&t]);
    assert_eq!(m[..11], ["-hide_banner", "-ss", "1.0", "-i", "/in.mp4", "-i", "/v.mp4", "-t", "4.0", "-map", "1:v:0"].map(String::from));
    let enc = build_encode_args("/in.mp4", "/h.mp4", "0.5", Some("0.1"), "1.5", "libx264", &[1], &[&t], Some("expr:eq(n,0)"), false, None);
    assert_eq!(enc[..9], ["-hide_banner", "-ss", "0.5", "-i", "/in.mp4", "-ss", "0.1", "-t", "1.5"].map(String::from));
    assert!(enc.contains(&"-force_key_frames".to_string()));
    assert!(enc.contains(&"-an".to_string()));
}

#[test]
fn concat_list_uses_forward_slashes() {
    let parts = vec!["C:\\tmp\\a.mp4".to_string(), "/tmp/b.mp4".to_string()];
    assert_eq!(build_concat_list(&parts), "file 'C:/tmp/a.mp4'\nfile '/tmp/b.mp4'");
    assert_eq!(build_concat_list(&vec![]), "");
}

#[test]
fn output_file_names() {
    assert_eq!(build_output_file_name("clip", 1, "mp4"), "clip-001.mp4");
    assert_eq!(build_output_file_name("clip", 42, "mkv"), "clip-042.mkv");
    assert_eq!(build_output_file_name("clip", 1000, "mp4"), "clip-1000.mp4");
}

#[test]
fn extensions_of_plain_file_names() {
    assert_eq!(get_output_extension("clip.MKV"), "MKV");
    assert_eq!(get_output_extension("archive.tar.gz"), "gz");
    assert_eq!(get_output_extension(".hidden"), "mp4");
    assert_eq!(get_output_extension("noext"), "mp4");
}
