use video_cut::cachekey::cache_file_name;
use video_cut::listing::limit_lines;
use video_cut::probe::parse_radix;
use video_cut::session::{PrunedSegment, Session};
use video_cut::text::{clean, contains_text, replace_text, to_wide};

struct Lcg(u64);

impl Lcg {
    fn next(&mut self) -> u64 {
        self.0 = self.0.wrapping_mul(6364136223846793005).wrapping_add(1442695040888963407);
        self.0 >> 33
    }

    fn text(&mut self, alphabet: &[char], max: usize) -> String {
        let n = (self.next() as usize) % (max + 1);
        (0..n).map(|_| alphabet[(self.next() as usize) % alphabet.len()]).collect()
    }
}

fn reference_limit(bytes: &[u8]) -> String {
    let text = String::from_utf8_lossy(bytes);
    let mut result = String::new();
    for (count, line) in text.lines().enumerate() {
        if count >= 7 {
            break;
        }
        if count > 0 {
            result.push('\n');
        }
        result.push_str(line);
    }
    let total = text.lines().count();
    if total > 7 {
        result.push_str(&format!("\n... (truncated, {} total lines)", total));
    }
    result
}

#[test]
fn radix_parsing_agrees() {
    let mut g = Lcg(1);
    let alphabet = ['0', '1', '9', 'a', 'F', '+', '-', 'x', ' '];
    for _ in 0..2000 {
        let s = g.text(&alphabet, 8);
        assert_eq!(parse_radix(&s, 10, u64::MAX), s.parse::<u64>().ok(), "{:?}", s);
        assert_eq!(parse_radix(&s, 16, u32::MAX as u64), u32::from_str_radix(&s, 16).ok().map(u64::from), "{:?}", s);
    }
}

#[test]
fn line_limiting_agrees() {
    let mut g = Lcg(2);
    let alphabet = ['a', '\n', '\r', ' ', 'é'];
    for _ in 0..2000 {
        let s = g.text(&alphabet, 40);
        assert_eq!(limit_lines(s.as_bytes()), reference_limit(s.as_bytes()), "{:?}", s);
    }
}

#[test]
fn text_helpers_agree() {
    let mut g = Lcg(3);
    let alphabet = ['a', 'b', ' ', '\t', '\0', '\u{2003}', '😀'];
    for _ in 0..2000 {
        let s = g.text(&alphabet, 12);
        let t = g.text(&alphabet[..3], 3);
        assert_eq!(contains_text(&s, &t), s.contains(t.as_str()), "{:?} {:?}", s, t);
        if !t.is_empty() {
            assert_eq!(replace_text(&s, &t, "xy"), s.replace(t.as_str(), "xy"), "{:?} {:?}", s, t);
        }
        assert_eq!(clean(&s), s.trim_end_matches('\0').trim(), "{:?}", s);
        let wide: Vec<u16> = s.encode_utf16().chain(std::iter::once(0)).collect();
        assert_eq!(to_wide(&s), wide);
    }
}

#[test]
fn cache_names_agree() {
    let mut g = Lcg(4);
    for _ in 0..500 {
        let h = (g.next() << 32) ^ g.next();
        assert_eq!(cache_file_name(h), format!("wf_1_{:016x}.bin", h));
    }
}

fn reference_output_folder(path: &str) -> String {
    if path.is_empty() {
        return String::new();
    }
    let p = std::path::Path::new(path);
    if !p.is_absolute() {
        return String::new();
    }
    for component in p.components() {
        let text = component.as_os_str().to_string_lossy();
        if text.chars().any(|c| ['<', '>', '"', '|', '?', '*'].contains(&c)) {
            return String::new();
        }
    }
    path.to_string()
}

#[test]
fn output_folder_rule_agrees() {
    let mut g = Lcg(5);
    let alphabet = ['/', 'a', '.', '?', '*', '|', '<', '"', '\\', ':', 'C'];
    for _ in 0..3000 {
        let s = g.text(&alphabet, 10);
        assert_eq!(video_cut::config::validate_output_folder(&s), reference_output_folder(&s), "{:?}", s);
    }
}

#[test]
fn zoom_rule_agrees() {
    let mut g = Lcg(6);
    for _ in 0..3000 {
        let v = f64::from_bits((g.next() << 32) ^ g.next());
        let candidates = [v, g.next() as f64 / 1e8, -0.0, 0.25, 5.0, f64::INFINITY, f64::NAN];
        for x in candidates {
            let expected = if (0.25..=5.0).contains(&x) { x } else { 1.0 };
            assert_eq!(video_cut::config::zoom_scale_or_default(Some(x.to_bits())), expected.to_bits(), "{}", x);
        }
    }
}

fn reference_stream_id(id: Option<&str>) -> Option<u32> {
    let id = id?;
    if let Some(hex) = id.strip_prefix("0x") {
        u32::from_str_radix(hex, 16).ok()
    } else {
        id.parse::<u32>().ok()
    }
}

#[test]
fn stream_ids_agree() {
    let mut g = Lcg(8);
    let alphabet = ['0', 'x', 'X', '1', 'f', 'F', 'g', '+', '9'];
    for _ in 0..3000 {
        let s = g.text(&alphabet, 11);
        assert_eq!(video_cut::probe::parse_stream_id(Some(&s)), reference_stream_id(Some(&s)), "{:?}", s);
    }
}

#[test]
fn session_rules_agree() {
    let mut g = Lcg(9);
    let values = [0.0, -0.0, 1.5, -1.0, 3.0, f64::NAN, f64::INFINITY];
    for _ in 0..3000 {
        let segs: Option<Vec<(f64, f64)>> = if g.next() % 4 == 0 {
            None
        } else {
            Some((0..g.next() % 3).map(|_| (values[(g.next() % 7) as usize], values[(g.next() % 7) as usize])).collect())
        };
        let tracks: Option<Vec<i32>> = if g.next() % 4 == 0 { None } else { Some((0..g.next() % 3).map(|_| (g.next() % 5) as i32 - 1).collect()) };
        let path = if g.next() % 3 == 0 { None } else { Some("/v.mp4".to_string()) };
        let exists = g.next() % 2 == 0;
        let blank = path.is_none() && segs.as_deref().map_or(true, |s| s.is_empty()) && tracks.as_deref().map_or(true, |t| t.is_empty());
        let expected_ok = blank
            || (path.is_some()
                && exists
                && segs.as_deref().map_or(true, |s| s.iter().all(|&(a, b)| !(a < 0.0 || b <= a)))
                && tracks.as_deref().map_or(true, |t| t.iter().all(|&x| x >= 0)));
        let session = Session {
            file_path: path,
            segments: segs.map(|v| v.into_iter().map(|(a, b)| PrunedSegment { id: "s".into(), start: a.to_bits(), end: b.to_bits() }).collect()),
            audio_tracks: tracks,
        };
        assert_eq!(session.is_blank(), blank);
        assert_eq!(session.validate(exists).is_ok(), expected_ok);
    }
}
