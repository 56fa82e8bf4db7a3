use video_cut::listing::limit_lines;
use video_cut::mp4::{extract_mp4_track_names, parse_moov_tracks, top_level_step, TopLevelStep};
use video_cut::probe::keyframe_times;

#[test]
fn short_output_kept_whole() {
    assert_eq!(limit_lines(b"a\r\nb\nc"), "a\nb\nc");
    assert_eq!(limit_lines(b""), "");
    assert_eq!(limit_lines(b"one\n"), "one");
}

#[test]
fn long_output_cut_to_seven_lines() {
    let text: String = (1..=9).map(|i| format!("line {i}\n")).collect();
    assert_eq!(
        limit_lines(text.as_bytes()),
        "line 1\nline 2\nline 3\nline 4\nline 5\nline 6\nline 7\n... (truncated, 9 total lines)"
    );
    let seven: String = (1..=7).map(|i| format!("l{i}\n")).collect();
    assert_eq!(limit_lines(seven.as_bytes()), "l1\nl2\nl3\nl4\nl5\nl6\nl7");
}

#[test]
fn keyframe_packets_selected() {
    let p = |t: Option<&str>, f: Option<&str>| (t.map(String::from), f.map(String::from));
    let packets = vec![
        p(Some("0.000000"), Some("K__")),
        p(Some("0.033000"), Some("___")),
        p(None, Some("K__")),
        p(Some("2.002000"), None),
        p(Some("2.002000"), Some("K_D")),
        p(Some("N/A"), Some("K")),
    ];
    assert_eq!(keyframe_times(&packets), vec!["0.000000", "2.002000", "N/A"]);
}

fn atom(kind: &[u8; 4], body: &[u8]) -> Vec<u8> {
    let mut v = ((body.len() + 8) as u32).to_be_bytes().to_vec();
    v.extend_from_slice(kind);
    v.extend_from_slice(body);
    v
}

/// Walks the top level in 16-byte windows and reads `moov` from its start
/// to the end of the file, as the application does.
fn windowed(file: &[u8]) -> Result<Vec<(Option<u32>, Option<String>)>, video_cut::error::AppError> {
    let size = file.len() as u64;
    let mut pos: u128 = 0;
    loop {
        let lo = (pos as usize).min(file.len());
        let hi = (lo + 16).min(file.len());
        match top_level_step(&file[lo..hi], lo as u64, pos, size) {
            TopLevelStep::Finished => return Ok(vec![]),
            TopLevelStep::Next(p) => pos = p,
            TopLevelStep::Failed(e) => return Err(e),
            TopLevelStep::Moov(p, h) => return parse_moov_tracks(&file[p as usize..], p as u64, p, h),
        }
    }
}

#[test]
fn windowed_walk_matches_whole_file() {
    let mut tkhd = vec![0u8; 12];
    tkhd.extend_from_slice(&11u32.to_be_bytes());
    let trak = atom(b"trak", &[atom(b"tkhd", &tkhd), atom(b"udta", &atom(b"name", b"Game"))].concat());
    let mut file = atom(b"ftyp", b"isomiso2");
    file.extend(atom(b"mdat", &vec![7u8; 5000]));
    file.extend(atom(b"moov", &trak));
    let whole = extract_mp4_track_names(&file).unwrap();
    assert_eq!(whole, vec![(Some(11), Some("Game".to_string()))]);
    assert_eq!(windowed(&file).unwrap(), whole);
}
