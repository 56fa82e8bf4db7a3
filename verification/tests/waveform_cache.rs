use video_cut::waveform::{JobIds, PublishAction, StagedCache};
use video_cut::cachekey::{cache_file_name, cache_key, part_file_name};
use video_cut::points::{cached_peaks, point_batch, replay_batches, PointBatch, PointBuffer};
use video_cut::waveform::{
    bin_step, build_waveform_args, cache_header, cached_point_count, chunk_index_for, decode_point,
    event_count_for, next_job_id, points_in, raw_points_span, resolve_points_per_event,
    resolve_target_rate, resume_start, seeks_on_resume, should_publish, BinStep,
};

fn fnv(bytes: &[u8], mut s: u64) -> u64 {
    for &b in bytes {
        s ^= b as u64;
        s = s.wrapping_mul(0x100000001b3);
    }
    s ^= b'|' as u64;
    s.wrapping_mul(0x100000001b3)
}

#[test]
fn points_per_event_clamped() {
    assert_eq!(resolve_points_per_event(None), 96);
    assert_eq!(resolve_points_per_event(Some(0)), 1);
    assert_eq!(resolve_points_per_event(Some(5000)), 1920);
    assert_eq!(resolve_points_per_event(Some(200)), 200);
}

#[test]
fn event_counts_round_up() {
    assert_eq!(event_count_for(96), 20);
    assert_eq!(event_count_for(100), 20);
    assert_eq!(event_count_for(1920), 1);
    assert_eq!(event_count_for(1), 1920);
    assert_eq!(event_count_for(7), 275);
}

#[test]
fn target_rate_rules() {
    assert_eq!(resolve_target_rate(Some(50000), Some(44100), 8000), 12000);
    assert_eq!(resolve_target_rate(Some(0), None, 8000), 1);
    assert_eq!(resolve_target_rate(Some(8000), Some(4000), 2000), 4000);
    assert_eq!(resolve_target_rate(None, Some(0), 6000), 6000);
    assert_eq!(resolve_target_rate(None, Some(3000), 6000), 3000);
    assert_eq!(resolve_target_rate(None, None, 2000), 2000);
}

#[test]
fn job_ids() {
    assert_eq!(next_job_id(1700000000000, 7), "wf-1700000000000-7");
    assert_eq!(next_job_id(0, 0), "wf-0-0");
}

#[test]
fn chunk_index_is_offset_over_event_size() {
    assert_eq!(chunk_index_for(0, 96), 0);
    assert_eq!(chunk_index_for(191, 96), 1);
    assert_eq!(chunk_index_for(192, 96), 2);
}

#[test]
fn point_decoding() {
    assert_eq!(decode_point(&[1, 2, 3, 4, 5, 6, 7]), (1, 2, 3, 4, 5, 6));
}

#[test]
fn cache_header_probes_back() {
    let h = cache_header();
    assert_eq!(h, b"WVFM\x01\x00\x00\x00".to_vec());
    assert_eq!(cached_point_count(Some(&h), 8 + 6 * 10), Some(10));
    assert_eq!(cached_point_count(Some(&h), 8 + 6 * 10 + 5), Some(10));
    assert_eq!(cached_point_count(Some(&h), 8 + 6 * 5000), Some(1920));
    assert_eq!(cached_point_count(Some(&h), 8), Some(0));
}

#[test]
fn bad_cache_files_are_discarded() {
    assert_eq!(cached_point_count(None, 100), None);
    assert_eq!(cached_point_count(Some(b"WVFX\x01\x00\x00\x00"), 100), None);
    assert_eq!(cached_point_count(Some(b"WVFM\x02\x00\x00\x00"), 100), None);
    assert_eq!(cached_point_count(Some(b"WVFM\x01\x00\x00\x00"), 4), None);
}

#[test]
fn spans_and_publishing() {
    assert_eq!(raw_points_span(2, 3), (20, 18));
    assert_eq!(points_in(20), 3);
    assert!(should_publish(5, 4));
    assert!(!should_publish(4, 4));
}

#[test]
fn bins_never_straddle() {
    // 1920 bins over 3840 frames: bin 0 ends at frame 2.
    assert!(matches!(bin_step(0, 0, 3840, 10), BinStep::Take(2)));
    assert!(matches!(bin_step(0, 1, 3840, 10), BinStep::Take(1)));
    assert!(matches!(bin_step(0, 2, 3840, 10), BinStep::Finalize));
    assert!(matches!(bin_step(5, 10, 3840, 1), BinStep::Take(1)));
    assert!(matches!(bin_step(1920, 0, 3840, 10), BinStep::Stop));
    // Fewer frames than bins: some bins are empty.
    assert!(matches!(bin_step(0, 0, 100, 10), BinStep::Finalize));
}

#[test]
fn resume_rules() {
    assert_eq!(resume_start(None), 0);
    assert_eq!(resume_start(Some(100)), 100);
    assert_eq!(resume_start(Some(5000)), 1920);
    assert!(!seeks_on_resume(0));
    assert!(seeks_on_resume(10));
    assert!(!seeks_on_resume(1920));
}

#[test]
fn decode_arguments() {
    let a = build_waveform_args("/v.mp4", 2, 8000, Some("1.500000"));
    assert_eq!(
        a,
        vec![
            "-hide_banner", "-loglevel", "error", "-nostdin", "-threads", "0", "-vn", "-sn", "-dn", "-ss",
            "1.500000", "-i", "/v.mp4", "-map", "0:2", "-ac", "2", "-ar", "8000", "-sample_fmt", "s16",
            "-c:a", "pcm_s16le", "-f", "s16le", "-",
        ]
    );
    let b = build_waveform_args("/v.mp4", 1, 12000, None);
    assert_eq!(b[9], "-i");
}

#[test]
fn cache_key_is_fnv_of_fields() {
    let mut s = 0xcbf29ce484222325u64;
    s = fnv("C:\\v\\clip.mp4".as_bytes(), s);
    s = fnv(&3u32.to_le_bytes(), s);
    s = fnv(&8000u32.to_le_bytes(), s);
    s = fnv(&1920u32.to_le_bytes(), s);
    s = fnv(&61500u64.to_le_bytes(), s);
    assert_eq!(cache_key("C:\\v\\clip.mp4", 3, 8000, 61500, None), s);
    let with_len = fnv(&1234u64.to_le_bytes(), s);
    assert_eq!(cache_key("C:\\v\\clip.mp4", 3, 8000, 61500, Some((1234, None))), with_len);
    let with_time = fnv(&99u64.to_le_bytes(), with_len);
    assert_eq!(cache_key("C:\\v\\clip.mp4", 3, 8000, 61500, Some((1234, Some(99)))), with_time);
    assert_ne!(cache_key("C:\\v\\clip.mp4", 4, 8000, 61500, None), s);
}

#[test]
fn cache_file_names() {
    assert_eq!(cache_file_name(0x1234), "wf_1_0000000000001234.bin");
    assert_eq!(cache_file_name(u64::MAX), "wf_1_ffffffffffffffff.bin");
    assert_eq!(cache_file_name(0xabcdef0123456789), format!("wf_1_{:016x}.bin", 0xabcdef0123456789u64));
    assert_eq!(part_file_name("wf_1_00.bin", 4242, "wf-1-2"), "wf_1_00.bin.4242-wf-1-2.part");
}

fn sample_points() -> Vec<u8> {
    let mut v = Vec::new();
    for i in 0..5u8 {
        v.extend_from_slice(&[i, i + 1, 10 * i, 10 * i + 1, 2 * i, 3 * i]);
    }
    v
}

#[test]
fn batches_split_columns() {
    let data = sample_points();
    let b = point_batch(&data, 1, 3, 7);
    assert_eq!(b.offset, 7);
    assert_eq!(b.left_rms, vec![1, 2, 3]);
    assert_eq!(b.right_rms, vec![2, 3, 4]);
    assert_eq!(b.left_up, vec![10, 20, 30]);
    assert_eq!(b.left_down, vec![11, 21, 31]);
    assert_eq!(b.right_up, vec![2, 4, 6]);
    assert_eq!(b.right_down, vec![3, 6, 9]);
    assert_eq!(b.chunk_max_peak, 31);
}

#[test]
fn interleave_round_trip() {
    let data = sample_points();
    let b = point_batch(&data, 0, 5, 0);
    assert_eq!(b.interleave(), data);
}

#[test]
fn replay_from_start_point() {
    let data = sample_points();
    let batches = replay_batches(&data, 1, 2);
    assert_eq!(batches.len(), 2);
    assert_eq!((batches[0].offset, batches[0].left_rms.clone()), (1, vec![1, 2]));
    assert_eq!((batches[1].offset, batches[1].left_rms.clone()), (3, vec![3, 4]));
    assert_eq!(batches[1].chunk_max_peak, 41);
    assert!(replay_batches(&data, 5, 2).is_empty());
    assert!(replay_batches(&data, 9, 2).is_empty());
}

#[test]
fn peaks_of_cached_points() {
    assert_eq!(cached_peaks(&sample_points()), (41, 12));
    assert_eq!(cached_peaks(&[]), (0, 0));
}

#[test]
fn buffer_hands_out_batches_at_their_offsets() {
    let mut buf = PointBuffer::new(10, 5, 0);
    assert!(buf.take_batch().is_none());
    buf.push_point((1, 1, 3, 9, 2, 4));
    buf.push_point((0, 0, 0, 0, 0, 0));
    assert_eq!(buf.pending_len(), 2);
    let b: PointBatch = buf.take_batch().unwrap();
    assert_eq!(b.offset, 10);
    assert_eq!(b.left_down, vec![9, 0]);
    assert_eq!(b.chunk_max_peak, 9);
    assert_eq!((buf.max_left_peak, buf.max_right_peak, buf.emitted_points), (9, 4, 12));
    buf.push_point((7, 7, 1, 1, 1, 1));
    let c = buf.take_batch().unwrap();
    assert_eq!(c.offset, 12);
    assert_eq!(c.chunk_max_peak, 1);
    assert!(buf.take_batch().is_none());
}

#[test]
fn bins_cover_every_expected_frame_once() {
    let expected: u64 = 48_001;
    let mut bin = 0usize;
    let mut cursor = 0u64;
    let mut per_bin = vec![0u64; 1920];
    let mut frames_left = expected as usize;
    while frames_left > 0 {
        match bin_step(bin, cursor, expected, frames_left) {
            BinStep::Stop => break,
            BinStep::Finalize => bin += 1,
            BinStep::Take(n) => {
                per_bin[bin] += n as u64;
                cursor += n as u64;
                frames_left -= n;
            }
        }
    }
    assert_eq!(frames_left, 0);
    assert_eq!(per_bin.iter().sum::<u64>(), expected);
    assert!(per_bin.iter().all(|&n| n == 25 || n == 26));
}

#[test]
fn job_ids_with_different_counters_differ() {
    assert_ne!(next_job_id(5, 1), next_job_id(5, 2));
    assert_ne!(next_job_id(12, 3), next_job_id(1, 23));
    assert_eq!(next_job_id(12, 3), "wf-12-3");
    assert_eq!(next_job_id(1, 23), "wf-1-23");
}

#[test]
fn job_ids_taken_from_the_counter() {
    let mut ids = JobIds::new();
    assert_eq!(ids.take(1700000000000), "wf-1700000000000-1");
    assert_eq!(ids.take(1700000000000), "wf-1700000000000-2");
    assert_eq!(ids.take(1700000000001), "wf-1700000000001-3");
}

#[test]
fn staged_cache_publishing() {
    let mut c = StagedCache::new(2);
    c.record_batch(6 * 3 + 4);
    assert_eq!(c.points_written(), 5);
    assert!(!c.is_published());
    assert_eq!(c.publish(4), PublishAction::Replace);
    assert!(c.is_published());
    assert_eq!(c.publish(0), PublishAction::Nothing);
    c.record_batch(60);
    assert_eq!(c.points_written(), 5);
    let mut d = StagedCache::new(3);
    assert_eq!(d.publish(3), PublishAction::Discard);
    let mut e = StagedCache::new(0);
    assert_eq!(e.publish(0), PublishAction::Discard);
}

#[test]
fn replayed_and_decoded_batches_follow_one_another() {
    let data = sample_points();
    let replayed = replay_batches(&data, 1, 2);
    let mut next = 1;
    for b in &replayed {
        assert_eq!(b.offset, next);
        next += b.left_rms.len();
    }
    assert_eq!(next, 5);
    let mut buf = PointBuffer::new(5, 0, 0);
    for round in 0..3u8 {
        buf.push_point((round, round, round, round, round, round));
        let b = buf.take_batch().unwrap();
        assert_eq!(b.offset, next);
        next += b.left_rms.len();
    }
    assert_eq!(next, 8);
}
