use std::collections::HashSet;
use std::io::{Cursor, Read, Seek, SeekFrom};

use video_cut::export::{plan_segment, select_audio_streams, CutMode};
use video_cut::keyframes::{find_next_keyframe, find_prev_keyframe};
use video_cut::listing::{detect_codec_names, parse_hwaccel_listing};
use video_cut::mp4::extract_mp4_track_names;
use video_cut::waveform::{cached_point_count, event_count_for, resolve_points_per_event, resolve_target_rate};

struct Lcg(u64);

impl Lcg {
    fn next(&mut self) -> u64 {
        self.0 = self.0.wrapping_mul(6364136223846793005).wrapping_add(1442695040888963407);
        self.0 >> 33
    }
    fn below(&mut self, n: u64) -> u64 {
        self.next() % n
    }
}

// A straightforward reader over an in-memory file, box by box.

type Track = (Option<u32>, Option<String>);

struct Header {
    size: u64,
    kind: [u8; 4],
    header_size: u64,
}

fn eof(what: &str, e: std::io::Error) -> String {
    format!("{}: {}", what, e)
}

fn read_header(f: &mut Cursor<&[u8]>, pos: u64, end: u64) -> Result<Header, String> {
    let mut b4 = [0u8; 4];
    f.read_exact(&mut b4).map_err(|e| eof("Failed to read atom size", e))?;
    let size32 = u32::from_be_bytes(b4) as u64;
    let mut kind = [0u8; 4];
    f.read_exact(&mut kind).map_err(|e| eof("Failed to read atom type", e))?;
    if size32 == 1 {
        let mut b8 = [0u8; 8];
        f.read_exact(&mut b8).map_err(|e| eof("Failed to read 64-bit atom size", e))?;
        let s = u64::from_be_bytes(b8);
        if s == 0 {
            return Err("64-bit atom size cannot be 0".into());
        }
        Ok(Header { size: s, kind, header_size: 16 })
    } else if size32 == 0 {
        let s = end - pos;
        if s < 8 {
            return Err(format!("Invalid zero-size atom: {}", s));
        }
        Ok(Header { size: s, kind, header_size: 8 })
    } else if size32 < 8 {
        Err(format!("Invalid atom size: {}", size32))
    } else {
        Ok(Header { size: size32, kind, header_size: 8 })
    }
}

fn read_text(f: &mut Cursor<&[u8]>, n: usize) -> Option<String> {
    let mut v = vec![0u8; n];
    f.read_exact(&mut v).ok()?;
    let s = String::from_utf8_lossy(&v).trim_end_matches('\0').trim().to_string();
    if s.is_empty() { None } else { Some(s) }
}

fn track_id(f: &mut Cursor<&[u8]>, start: u64, h: &Header) -> Result<Option<u32>, String> {
    let end = start + h.size;
    let mut pos = start + h.header_size;
    while pos < end {
        f.seek(SeekFrom::Start(pos)).unwrap();
        let c = read_header(f, pos, end)?;
        if c.size == 0 || c.size > h.size {
            break;
        }
        if &c.kind == b"tkhd" {
            let mut vf = [0u8; 4];
            if f.read_exact(&mut vf).is_ok() {
                let t = if vf[0] == 1 { 8 } else { 4 };
                f.seek(SeekFrom::Current(t * 2)).unwrap();
                let mut id = [0u8; 4];
                if f.read_exact(&mut id).is_ok() {
                    return Ok(Some(u32::from_be_bytes(id)));
                }
            }
            break;
        }
        pos += c.size;
    }
    Ok(None)
}

fn walk<F>(f: &mut Cursor<&[u8]>, start: u64, h: &Header, skip: u64, mut each: F) -> Result<Option<String>, String>
where
    F: FnMut(&mut Cursor<&[u8]>, u64, &Header) -> Result<Option<String>, String>,
{
    let end = start + h.size;
    let mut pos = start + h.header_size + skip;
    while pos < end {
        f.seek(SeekFrom::Start(pos)).unwrap();
        let c = read_header(f, pos, end)?;
        if c.size == 0 || c.size > h.size {
            break;
        }
        if let Some(n) = each(f, pos, &c)? {
            return Ok(Some(n));
        }
        pos += c.size;
    }
    Ok(None)
}

fn udta_name(f: &mut Cursor<&[u8]>, start: u64, h: &Header) -> Result<Option<String>, String> {
    walk(f, start, h, 0, |f, _, c| {
        if &c.kind == b"name" {
            if c.size < c.header_size {
                return Err("stop".into());
            }
            let n = (c.size - c.header_size) as usize;
            if n > 0 && n < 1024 {
                return Ok(read_text(f, n));
            }
        }
        Ok(None)
    })
    .or_else(|e| if e == "stop" { Ok(None) } else { Err(e) })
}

fn udta_title(f: &mut Cursor<&[u8]>, start: u64, h: &Header) -> Result<Option<String>, String> {
    walk(f, start, h, 0, |f, _, c| {
        if &c.kind == b"titl" {
            let skip = c.header_size + 6;
            if c.size < skip {
                return Err("stop".into());
            }
            let n = (c.size - skip) as usize;
            if n > 0 && n < 1024 {
                let mut six = [0u8; 6];
                if f.read_exact(&mut six).is_ok() {
                    return Ok(read_text(f, n));
                }
            }
        }
        Ok(None)
    })
    .or_else(|e| if e == "stop" { Ok(None) } else { Err(e) })
}

fn udta_meta(f: &mut Cursor<&[u8]>, start: u64, h: &Header) -> Result<Option<String>, String> {
    walk(f, start, h, 0, |f, pos, meta| {
        if &meta.kind != b"meta" {
            return Ok(None);
        }
        walk(f, pos, meta, 4, |f, pos, ilst| {
            if &ilst.kind != b"ilst" {
                return Ok(None);
            }
            walk(f, pos, ilst, 0, |f, pos, nam| {
                if nam.kind != [0xa9, b'n', b'a', b'm'] {
                    return Ok(None);
                }
                walk(f, pos, nam, 0, |f, _, d| {
                    if &d.kind == b"data" {
                        let skip = d.header_size + 4;
                        if d.size < skip {
                            return Err("stop".into());
                        }
                        let n = (d.size - skip) as usize;
                        if n > 0 && n < 1024 {
                            let mut four = [0u8; 4];
                            if f.read_exact(&mut four).is_ok() {
                                return Ok(read_text(f, n));
                            }
                        }
                    }
                    Ok(None)
                })
                .or_else(|e| if e == "stop" { Ok(None) } else { Err(e) })
            })
        })
    })
}

fn udta(f: &mut Cursor<&[u8]>, pos: u64, h: &Header) -> Result<Option<String>, String> {
    if let Some(n) = udta_name(f, pos, h)? {
        return Ok(Some(n));
    }
    if let Some(n) = udta_meta(f, pos, h)? {
        return Ok(Some(n));
    }
    udta_title(f, pos, h)
}

fn trak_name(f: &mut Cursor<&[u8]>, start: u64, h: &Header) -> Result<Option<String>, String> {
    walk(f, start, h, 0, |f, pos, c| {
        if &c.kind == b"udta" {
            if let Some(n) = udta(f, pos, c)? {
                return Ok(Some(n));
            }
        }
        if &c.kind == b"mdia" {
            return walk(f, pos, c, 0, |f, pos, u| if &u.kind == b"udta" { udta(f, pos, u) } else { Ok(None) });
        }
        Ok(None)
    })
}

fn reference_tracks(data: &[u8]) -> Result<Vec<Track>, String> {
    let mut f = Cursor::new(data);
    let size = data.len() as u64;
    let mut out = Vec::new();
    let mut pos = 0u64;
    while pos < size {
        f.seek(SeekFrom::Start(pos)).unwrap();
        let h = read_header(&mut f, pos, size)?;
        if &h.kind == b"moov" {
            let end = pos + h.size;
            let mut p = pos + h.header_size;
            while p < end {
                f.seek(SeekFrom::Start(p)).unwrap();
                let t = read_header(&mut f, p, end)?;
                if &t.kind == b"trak" {
                    let id = track_id(&mut f, p, &t)?;
                    let name = trak_name(&mut f, p, &t)?;
                    out.push((id, name));
                }
                p += t.size;
            }
            break;
        }
        pos += h.size;
    }
    Ok(out)
}

fn atom(kind: &[u8; 4], body: &[u8]) -> Vec<u8> {
    let mut v = ((body.len() + 8) as u32).to_be_bytes().to_vec();
    v.extend_from_slice(kind);
    v.extend_from_slice(body);
    v
}

fn random_box(g: &mut Lcg, depth: u32) -> Vec<u8> {
    let kinds: [&[u8; 4]; 11] = [b"trak", b"tkhd", b"udta", b"name", b"mdia", b"meta", b"ilst", b"data", b"titl", b"free", &[0xa9, b'n', b'a', b'm']];
    let kind = kinds[g.below(kinds.len() as u64) as usize];
    let body: Vec<u8> = if depth == 0 || g.below(3) == 0 {
        (0..g.below(24)).map(|_| [0u8, 1, b' ', b'A', b'z', 0xff][g.below(6) as usize]).collect()
    } else {
        let mut b = Vec::new();
        if kind == b"meta" {
            b.extend_from_slice(&[0, 0, 0, 0]);
        }
        for _ in 0..g.below(3) + 1 {
            b.extend(random_box(g, depth - 1));
        }
        b
    };
    atom(kind, &body)
}

fn mutate(g: &mut Lcg, mut v: Vec<u8>) -> Vec<u8> {
    for _ in 0..g.below(3) {
        if v.is_empty() {
            break;
        }
        let i = g.below(v.len() as u64) as usize;
        v[i] = [0u8, 1, 7, 8, 16, 0xff][g.below(6) as usize];
    }
    if g.below(4) == 0 && !v.is_empty() {
        let cut = g.below(v.len() as u64) as usize;
        v.truncate(cut);
    }
    v
}

#[test]
fn mp4_walk_agrees_on_generated_files() {
    let mut g = Lcg(7);
    for _ in 0..3000 {
        let mut moov_body = Vec::new();
        for _ in 0..g.below(3) + 1 {
            let mut trak_body = Vec::new();
            for _ in 0..g.below(3) + 1 {
                trak_body.extend(random_box(&mut g, 3));
            }
            moov_body.extend(atom(b"trak", &trak_body));
        }
        let mut file = atom(b"ftyp", b"isom");
        if g.below(2) == 0 {
            file.extend(atom(b"mdat", &[9u8; 20]));
        }
        file.extend(atom(b"moov", &moov_body));
        let file = mutate(&mut g, file);
        let mine = extract_mp4_track_names(&file).map_err(|e| match e {
            video_cut::error::AppError::FFprobeError(m) => m,
            other => format!("{:?}", other),
        });
        assert_eq!(mine, reference_tracks(&file), "{:?}", file);
    }
}

fn reference_prev(t: f64, k: &[f64]) -> Option<f64> {
    let idx = match k.binary_search_by(|kf| kf.partial_cmp(&t).unwrap_or(std::cmp::Ordering::Equal)) {
        Ok(i) => i,
        Err(i) => i,
    };
    idx.checked_sub(1).and_then(|i| k.get(i)).copied()
}

fn reference_next(t: f64, k: &[f64]) -> Option<f64> {
    let idx = match k.binary_search_by(|kf| kf.partial_cmp(&t).unwrap_or(std::cmp::Ordering::Equal)) {
        Ok(i) => i + 1,
        Err(i) => i,
    };
    k.get(idx).copied()
}

#[test]
fn keyframe_search_and_plan_agree() {
    let mut g = Lcg(11);
    for round in 0..3000 {
        let n = g.below(8) as usize;
        let mut k: Vec<f64> = (0..n).map(|_| g.below(40) as f64 * 0.5).collect();
        if round % 3 != 0 {
            k.sort_by(|a, b| a.partial_cmp(b).unwrap());
            k.dedup();
        }
        if round % 17 == 0 {
            k.push(f64::NAN);
        }
        let bits: Vec<u64> = k.iter().map(|x| x.to_bits()).collect();
        let t = if round % 29 == 0 { f64::NAN } else { g.below(44) as f64 * 0.5 - 1.0 };
        assert_eq!(find_prev_keyframe(t.to_bits(), &bits), reference_prev(t, &k).map(f64::to_bits));
        assert_eq!(find_next_keyframe(t.to_bits(), &bits), reference_next(t, &k).map(f64::to_bits));

        let (start, end) = (g.below(40) as f64 * 0.5, g.below(40) as f64 * 0.5 + 0.25);
        let (sk, ek, smart) = (g.below(2) == 0, g.below(2) == 0, g.below(4) != 0);
        let p = plan_segment(smart, start.to_bits(), end.to_bits(), sk, ek, &bits);
        let k1 = if sk { start } else { reference_prev(start, &k).unwrap_or(start) };
        let k4 = if ek { end } else { reference_next(end, &k).unwrap_or(end) };
        assert_eq!((p.k1, p.k4), (k1.to_bits(), k4.to_bits()));
        let expected = if !smart || (sk && ek) {
            "copy"
        } else {
            match (reference_next(start, &k), reference_prev(end, &k)) {
                (Some(a), Some(b)) if a < b => "smart",
                _ => "full",
            }
        };
        let got = match p.mode {
            CutMode::StreamCopy => "copy",
            CutMode::SmartCut { .. } => "smart",
            CutMode::FullEncode => "full",
        };
        assert_eq!(got, expected);
    }
}

fn reference_codecs(text: &str) -> Option<HashSet<String>> {
    let mut set = HashSet::new();
    for line in text.lines() {
        if line.contains('=') || line.contains("---") {
            continue;
        }
        if line.starts_with(" V") || line.starts_with(" A") {
            if line.len() > 8 {
                if !line.is_char_boundary(8) {
                    return None;
                }
                if let Some(name) = line[8..].split_whitespace().next() {
                    set.insert(name.to_string());
                }
            }
        }
    }
    Some(set)
}

fn reference_hwaccels(text: &str) -> HashSet<String> {
    text.lines().map(str::trim).filter(|l| !l.is_empty() && !l.starts_with("Hardware")).map(String::from).collect()
}

#[test]
fn listings_agree() {
    let mut g = Lcg(13);
    let pieces = [" V", " A", " S", "....D", " ", "x264", "nvenc", "=", "---", "\n", "\r\n", "é", "Hardware", "\t", "cuda"];
    for _ in 0..3000 {
        let text: String = (0..g.below(14)).map(|_| pieces[g.below(pieces.len() as u64) as usize]).collect();
        let mine = detect_codec_names(text.as_bytes()).map(|v| {
            let set: HashSet<String> = v.iter().cloned().collect();
            assert_eq!(set.len(), v.len());
            set
        });
        assert_eq!(mine, reference_codecs(&text), "{:?}", text);
        let hw = parse_hwaccel_listing(text.as_bytes());
        let set: HashSet<String> = hw.iter().cloned().collect();
        assert_eq!(set.len(), hw.len());
        assert_eq!(set, reference_hwaccels(&text), "{:?}", text);
    }
}

#[test]
fn waveform_parameters_agree() {
    let mut g = Lcg(17);
    for _ in 0..3000 {
        let p = if g.below(5) == 0 { None } else { Some(g.below(4000) as usize) };
        let ppe = resolve_points_per_event(p);
        assert_eq!(ppe, p.unwrap_or(96).clamp(1, 1920));
        assert_eq!(event_count_for(ppe), (1920 + ppe - 1) / ppe);
        let target = if g.below(3) == 0 { None } else { Some(g.below(20000) as u32) };
        let source = if g.below(3) == 0 { None } else { Some(g.below(50000) as u32) };
        let auto = 2000 + g.below(10001) as u32;
        let expected = match target {
            Some(r) => {
                let mut v = r.clamp(1, 12000);
                if let Some(s) = source.filter(|&s| s > 0) {
                    v = v.min(s);
                }
                v
            }
            None => match source {
                Some(s) if s > 0 => auto.min(s),
                _ => auto,
            },
        };
        assert_eq!(resolve_target_rate(target, source, auto), expected);
        let header: [u8; 8] = [b'W', b'V', b'F', if g.below(8) == 0 { b'X' } else { b'M' }, if g.below(8) == 0 { 2 } else { 1 }, 0, 0, 0];
        let size = g.below(20000);
        let expected = if &header[0..4] != b"WVFM" || u32::from_le_bytes([header[4], header[5], header[6], header[7]]) != 1 || size < 8 {
            None
        } else {
            Some(((size - 8).min(1920 * 6) / 6) as usize)
        };
        assert_eq!(cached_point_count(Some(&header), size), expected);
    }
}

#[test]
fn audio_selection_agrees() {
    let mut g = Lcg(19);
    for _ in 0..2000 {
        let sel: Vec<usize> = (0..g.below(6)).map(|_| g.below(6) as usize).collect();
        let n = g.below(5) as usize;
        let expected: Vec<usize> = sel.iter().copied().filter(|&t| t != 0 && t - 1 < n).collect();
        assert_eq!(select_audio_streams(&sel, n), expected);
    }
}
