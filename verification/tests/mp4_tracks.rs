use video_cut::error::AppError;
use video_cut::mp4::extract_mp4_track_names;

fn atom(kind: &[u8; 4], body: &[u8]) -> Vec<u8> {
    let mut v = ((body.len() + 8) as u32).to_be_bytes().to_vec();
    v.extend_from_slice(kind);
    v.extend_from_slice(body);
    v
}

fn tkhd_v0(track_id: u32) -> Vec<u8> {
    let mut body = vec![0u8; 4];
    body.extend_from_slice(&[0u8; 8]);
    body.extend_from_slice(&track_id.to_be_bytes());
    body.extend_from_slice(&[0u8; 4]);
    atom(b"tkhd", &body)
}

fn tkhd_v1(track_id: u32) -> Vec<u8> {
    let mut body = vec![1u8, 0, 0, 0];
    body.extend_from_slice(&[0u8; 16]);
    body.extend_from_slice(&track_id.to_be_bytes());
    atom(b"tkhd", &body)
}

fn trak(parts: &[Vec<u8>]) -> Vec<u8> {
    let body: Vec<u8> = parts.concat();
    atom(b"trak", &body)
}

fn ffprobe_err(r: Result<Vec<(Option<u32>, Option<String>)>, AppError>) -> String {
    match r {
        Err(AppError::FFprobeError(m)) => m,
        other => panic!("expected an FFprobe error, got {:?}", other),
    }
}

#[test]
fn empty_file_has_no_tracks() {
    assert_eq!(extract_mp4_track_names(&[]).unwrap(), vec![]);
}

#[test]
fn udta_name_gives_track_name() {
    let udta = atom(b"udta", &atom(b"name", b"  Commentary\0\0"));
    let moov = atom(b"moov", &trak(&[tkhd_v0(2), udta]));
    let mut file = atom(b"ftyp", b"isom");
    file.extend(moov);
    let r = extract_mp4_track_names(&file).unwrap();
    assert_eq!(r, vec![(Some(2), Some("Commentary".to_string()))]);
}

#[test]
fn version_one_tkhd_reads_wide_timestamps() {
    let moov = atom(b"moov", &trak(&[tkhd_v1(7)]));
    assert_eq!(extract_mp4_track_names(&moov).unwrap(), vec![(Some(7), None)]);
}

#[test]
fn meta_ilst_nam_data_gives_name() {
    let mut data_body = vec![0u8, 0, 0, 1];
    data_body.extend_from_slice(b"Director");
    let nam = atom(&[0xa9, b'n', b'a', b'm'], &atom(b"data", &data_body));
    let ilst = atom(b"ilst", &nam);
    let mut meta_body = vec![0u8; 4];
    meta_body.extend(ilst);
    let udta = atom(b"udta", &atom(b"meta", &meta_body));
    let moov = atom(b"moov", &trak(&[tkhd_v0(3), udta]));
    assert_eq!(extract_mp4_track_names(&moov).unwrap(), vec![(Some(3), Some("Director".to_string()))]);
}

#[test]
fn titl_gives_name_after_language() {
    let mut body = vec![0u8; 6];
    body.extend_from_slice(b"Music ");
    let udta = atom(b"udta", &atom(b"titl", &body));
    let moov = atom(b"moov", &trak(&[tkhd_v0(4), udta]));
    assert_eq!(extract_mp4_track_names(&moov).unwrap(), vec![(Some(4), Some("Music".to_string()))]);
}

#[test]
fn name_inside_mdia_udta() {
    let mdia = atom(b"mdia", &atom(b"udta", &atom(b"name", b"Voice")));
    let moov = atom(b"moov", &trak(&[tkhd_v0(5), mdia]));
    assert_eq!(extract_mp4_track_names(&moov).unwrap(), vec![(Some(5), Some("Voice".to_string()))]);
}

#[test]
fn several_tracks_in_order() {
    let t1 = trak(&[tkhd_v0(1)]);
    let t2 = trak(&[tkhd_v0(2), atom(b"udta", &atom(b"name", b"B"))]);
    let moov = atom(b"moov", &[t1, atom(b"free", b""), t2].concat());
    let r = extract_mp4_track_names(&moov).unwrap();
    assert_eq!(r, vec![(Some(1), None), (Some(2), Some("B".to_string()))]);
}

#[test]
fn whitespace_only_name_is_no_name() {
    let udta = atom(b"udta", &atom(b"name", b"  \0"));
    let moov = atom(b"moov", &trak(&[tkhd_v0(9), udta]));
    assert_eq!(extract_mp4_track_names(&moov).unwrap(), vec![(Some(9), None)]);
}

#[test]
fn truncated_size_is_an_error() {
    let m = ffprobe_err(extract_mp4_track_names(&[0, 0, 0]));
    assert_eq!(m, "Failed to read atom size: failed to fill whole buffer");
}

#[test]
fn truncated_type_is_an_error() {
    let m = ffprobe_err(extract_mp4_track_names(&[0, 0, 0, 16, b'f']));
    assert_eq!(m, "Failed to read atom type: failed to fill whole buffer");
}

#[test]
fn small_size_is_an_error() {
    let m = ffprobe_err(extract_mp4_track_names(&[0, 0, 0, 4, b'f', b'r', b'e', b'e']));
    assert_eq!(m, "Invalid atom size: 4");
}

#[test]
fn zero_large_size_is_an_error() {
    let mut v = vec![0, 0, 0, 1];
    v.extend_from_slice(b"free");
    v.extend_from_slice(&[0u8; 8]);
    let m = ffprobe_err(extract_mp4_track_names(&v));
    assert_eq!(m, "64-bit atom size cannot be 0");
}

#[test]
fn truncated_large_size_is_an_error() {
    let mut v = vec![0, 0, 0, 1];
    v.extend_from_slice(b"free");
    v.extend_from_slice(&[0u8; 3]);
    let m = ffprobe_err(extract_mp4_track_names(&v));
    assert_eq!(m, "Failed to read 64-bit atom size: failed to fill whole buffer");
}

#[test]
fn zero_size_runs_to_end_of_file() {
    let mut moov = vec![0, 0, 0, 0];
    moov.extend_from_slice(b"moov");
    moov.extend(trak(&[tkhd_v0(6)]));
    assert_eq!(extract_mp4_track_names(&moov).unwrap(), vec![(Some(6), None)]);
}

#[test]
fn zero_size_too_short_is_an_error() {
    let v = vec![0, 0, 0, 12, b'm', b'o', b'o', b'v', 0, 0, 0, 0, b'a', b'b', b'c', b'd'];
    let m = ffprobe_err(extract_mp4_track_names(&v));
    assert_eq!(m, "Invalid zero-size atom: 4");
}

#[test]
fn zero_size_header_where_the_container_ends() {
    let data: Vec<u8> = vec![0, 0, 0, 0, b'f', b'r', b'e', b'e'];
    match video_cut::mp4::read_atom_header(&data, 0, 0, 0) {
        Err(AppError::FFprobeError(m)) => assert_eq!(m, "Invalid zero-size atom: 0"),
        other => panic!("expected an FFprobe error, got {:?}", other),
    }
    let h = video_cut::mp4::read_atom_header(&data, 0, 0, 8).unwrap();
    assert_eq!((h.size, h.atom_type, h.header_size), (8, u32::from_be_bytes(*b"free"), 8));
}
