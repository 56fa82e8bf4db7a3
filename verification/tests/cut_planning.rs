use video_cut::error::AppError;
use video_cut::export::{check_export_request, plan_segment, plan_segment_from, select_audio_streams, select_audio_tracks, CutMode};
use video_cut::keyframes::{find_next_keyframe, find_prev_keyframe};
use video_cut::models::AudioTrack;

fn b(x: f64) -> u64 {
    x.to_bits()
}

fn kfs() -> Vec<u64> {
    vec![b(0.0), b(2.0), b(4.0), b(6.0), b(8.0)]
}

#[test]
fn prev_keyframe_between_keyframes() {
    assert_eq!(find_prev_keyframe(b(3.0), &kfs()), Some(b(2.0)));
}

#[test]
fn prev_keyframe_on_a_keyframe_is_the_one_before() {
    assert_eq!(find_prev_keyframe(b(4.0), &kfs()), Some(b(2.0)));
}

#[test]
fn prev_keyframe_before_first_is_none() {
    assert_eq!(find_prev_keyframe(b(0.0), &kfs()), None);
    assert_eq!(find_prev_keyframe(b(-1.0), &kfs()), None);
}

#[test]
fn next_keyframe_between_and_on() {
    assert_eq!(find_next_keyframe(b(3.0), &kfs()), Some(b(4.0)));
    assert_eq!(find_next_keyframe(b(4.0), &kfs()), Some(b(6.0)));
    assert_eq!(find_next_keyframe(b(8.0), &kfs()), None);
    assert_eq!(find_next_keyframe(b(9.5), &kfs()), None);
}

#[test]
fn no_keyframes_no_neighbours() {
    assert_eq!(find_prev_keyframe(b(1.0), &[]), None);
    assert_eq!(find_next_keyframe(b(1.0), &[]), None);
}

#[test]
fn copy_when_smart_cut_off() {
    let p = plan_segment(false, b(3.0), b(7.0), false, false, &kfs());
    assert!(matches!(p.mode, CutMode::StreamCopy));
    assert_eq!(p.k1, b(2.0));
    assert_eq!(p.k4, b(8.0));
}

#[test]
fn copy_when_both_ends_are_keyframes() {
    let p = plan_segment(true, b(2.0), b(6.0), true, true, &kfs());
    assert!(matches!(p.mode, CutMode::StreamCopy));
    assert_eq!(p.k1, b(2.0));
    assert_eq!(p.k4, b(6.0));
}

#[test]
fn smart_cut_brackets_the_segment() {
    let p = plan_segment(true, b(1.0), b(7.0), false, false, &kfs());
    match p.mode {
        CutMode::SmartCut { k1, k2, k3, k4, start_is_keyframe, end_is_keyframe } => {
            assert_eq!((k1, k2, k3, k4), (b(0.0), b(2.0), b(6.0), b(8.0)));
            assert!(!start_is_keyframe && !end_is_keyframe);
            let (k1, k2, k3, k4) = (f64::from_bits(k1), f64::from_bits(k2), f64::from_bits(k3), f64::from_bits(k4));
            assert!(k1 <= 1.0 && 1.0 < k2 && k2 < k3 && k3 < 7.0 && 7.0 <= k4);
        }
        other => panic!("expected a smart cut, got {:?}", other),
    }
}

#[test]
fn full_encode_without_inner_keyframes() {
    let p = plan_segment(true, b(2.5), b(3.5), false, false, &kfs());
    assert!(matches!(p.mode, CutMode::FullEncode));
    assert_eq!(p.k1, b(2.0));
    assert_eq!(p.k4, b(4.0));
}

#[test]
fn full_encode_when_inner_keyframes_coincide() {
    let p = plan_segment(true, b(3.0), b(5.0), false, false, &kfs());
    assert!(matches!(p.mode, CutMode::FullEncode));
}

#[test]
fn ends_default_to_segment_when_no_keyframe_outside() {
    let p = plan_segment(false, b(-1.0), b(9.0), false, false, &kfs());
    assert_eq!(p.k1, b(-1.0));
    assert_eq!(p.k4, b(9.0));
}

#[test]
fn plan_from_searches() {
    let p = plan_segment_from(true, b(1.0), b(7.0), true, false, Some(b(0.0)), Some(b(2.0)), Some(b(6.0)), Some(b(8.0)));
    assert_eq!(p.k1, b(1.0));
    assert!(matches!(p.mode, CutMode::SmartCut { k2, k3, .. } if k2 == b(2.0) && k3 == b(6.0)));
}

fn track(index: usize, name: &str) -> AudioTrack {
    AudioTrack { index, track_id: Some(index as u32), codec: "aac".into(), channels: 2, name: Some(name.into()) }
}

#[test]
fn audio_selection_skips_zero_and_missing() {
    assert_eq!(select_audio_streams(&[0, 1, 3, 2, 5], 3), vec![1, 3, 2]);
    let tracks = vec![track(1, "a"), track(2, "b"), track(3, "c")];
    let sel = select_audio_tracks(&[2, 0, 9, 1], &tracks);
    let names: Vec<&str> = sel.iter().map(|t| t.name.as_deref().unwrap()).collect();
    assert_eq!(names, vec!["b", "a"]);
}

#[test]
fn export_request_errors() {
    match check_export_request(false, true, 1, "/v.mp4") {
        Err(AppError::FileNotFound(m)) => assert_eq!(m, "/v.mp4"),
        other => panic!("{:?}", other),
    }
    match check_export_request(true, false, 1, "/v.mp4") {
        Err(AppError::ExportError(m)) => assert_eq!(m, "Output folder does not exist"),
        other => panic!("{:?}", other),
    }
    match check_export_request(true, true, 0, "/v.mp4") {
        Err(AppError::InvalidSegment(m)) => assert_eq!(m, "No segments to export"),
        other => panic!("{:?}", other),
    }
    assert!(check_export_request(true, true, 2, "/v.mp4").is_ok());
}

#[test]
fn repeated_keyframes_around_an_unrepeated_time() {
    let kfs = vec![b(0.0), b(2.0), b(2.0), b(4.0), b(4.0), b(6.0)];
    assert_eq!(find_prev_keyframe(b(3.0), &kfs), Some(b(2.0)));
    assert_eq!(find_next_keyframe(b(3.0), &kfs), Some(b(4.0)));
    assert_eq!(find_prev_keyframe(b(5.0), &kfs), Some(b(4.0)));
    assert_eq!(find_next_keyframe(b(1.0), &kfs), Some(b(2.0)));
    let p = plan_segment(false, b(3.0), b(5.0), false, false, &kfs);
    assert!(matches!(p.mode, CutMode::StreamCopy));
    assert_eq!((p.k1, p.k4), (b(2.0), b(6.0)));
}

#[test]
fn repeated_keyframe_at_the_time_gives_it_or_its_neighbour() {
    let kfs = vec![b(0.0), b(2.0), b(2.0), b(2.0), b(4.0)];
    let prev = find_prev_keyframe(b(2.0), &kfs);
    assert!(prev == Some(b(0.0)) || prev == Some(b(2.0)), "{:?}", prev);
    let next = find_next_keyframe(b(2.0), &kfs);
    assert!(next == Some(b(4.0)) || next == Some(b(2.0)), "{:?}", next);
    let p = plan_segment(true, b(2.0), b(2.0), true, true, &kfs);
    assert!(matches!(p.mode, CutMode::StreamCopy));
    let q = plan_segment(true, b(1.0), b(3.0), false, false, &kfs);
    let k1 = f64::from_bits(q.k1);
    let k4 = f64::from_bits(q.k4);
    assert!(k1 <= 1.0 && 3.0 <= k4);
}
