use video_cut::args::{add_audio_mappings_with_metadata, add_encoder_params, build_concat_list, build_output_file_name, level_to_arg};
use video_cut::models::{AudioTrack, VideoCodecParams};

struct Lcg(u64);

impl Lcg {
    fn below(&mut self, n: u64) -> u64 {
        self.0 = self.0.wrapping_mul(6364136223846793005).wrapping_add(1442695040888963407);
        (self.0 >> 33) % n
    }
    fn pick<'a>(&mut self, xs: &[&'a str]) -> &'a str {
        xs[self.below(xs.len() as u64) as usize]
    }
}

fn reference_mappings(args: &mut Vec<String>, idx: &[usize], tracks: &[&AudioTrack], generated: bool) {
    if idx.is_empty() {
        args.push("-an".to_string());
    } else {
        for (out, &stream) in idx.iter().enumerate() {
            args.push("-map".to_string());
            args.push(if generated { format!("0:a:{}", out) } else { format!("0:{}", stream) });
            if let Some(t) = tracks.get(out) {
                if let Some(n) = &t.name {
                    args.extend([format!("-metadata:s:a:{}", out), format!("title={}", n)]);
                }
            }
        }
        args.extend(["-movflags", "+use_metadata_tags+faststart", "-map_metadata", "0"].map(String::from));
    }
}

fn reference_level(level: u32) -> String {
    if level == 9 { "1b".to_string() } else { format!("{}.{}", level / 10, level % 10) }
}

fn reference_params(args: &mut Vec<String>, encoder: &str, hints: Option<&VideoCodecParams>) {
    match encoder {
        "libx264" | "libx265" => args.extend(["-preset", "medium", "-qp", "18"].map(String::from)),
        "libsvtav1" => args.extend(["-preset", "6", "-crf", "20"].map(String::from)),
        "libvpx-vp9" => args.extend(["-crf", "18", "-b:v", "0"].map(String::from)),
        _ => args.extend(["-qscale:v", "2"].map(String::from)),
    }
    let Some(h) = hints else { return };
    if matches!(encoder, "libx264" | "libx265") {
        if encoder == "libx264" {
            if let Some(p) = h.profile.as_deref() {
                let mapped = match p.to_lowercase().as_str() {
                    "high" => Some("high"),
                    "main" => Some("main"),
                    "baseline" | "constrained baseline" => Some("baseline"),
                    _ => None,
                };
                if let Some(m) = mapped {
                    args.extend(["-profile:v".to_string(), m.to_string()]);
                }
            }
        }
        if let Some(l) = h.level {
            args.extend(["-level".to_string(), reference_level(l)]);
        }
        if let Some(pf) = &h.pix_fmt {
            args.extend(["-pix_fmt".to_string(), pf.replace("yuvj", "yuv")]);
        }
        if let Some(cr) = &h.color_range {
            if cr == "tv" || cr == "pc" {
                args.extend(["-color_range".to_string(), cr.clone()]);
            }
        }
    }
}

#[test]
fn mappings_agree() {
    let mut g = Lcg(23);
    for _ in 0..2000 {
        let idx: Vec<usize> = (0..g.below(4)).map(|_| g.below(12) as usize).collect();
        let tracks: Vec<AudioTrack> = (0..g.below(4))
            .map(|i| AudioTrack {
                index: i as usize,
                track_id: None,
                codec: "aac".into(),
                channels: 2,
                name: if g.below(2) == 0 { None } else { Some(g.pick(&["Mic", "Game audio", ""]).to_string()) },
            })
            .collect();
        let refs: Vec<&AudioTrack> = tracks.iter().collect();
        let generated = g.below(2) == 0;
        let (mut a, mut b) = (vec!["-y".to_string()], vec!["-y".to_string()]);
        add_audio_mappings_with_metadata(&mut a, &idx, &refs, generated);
        reference_mappings(&mut b, &idx, &refs, generated);
        assert_eq!(a, b);
    }
}

#[test]
fn encoder_params_agree() {
    let mut g = Lcg(29);
    for _ in 0..3000 {
        let encoder = g.pick(&["libx264", "libx265", "libsvtav1", "libvpx-vp9", "libvpx", "h264_nvenc"]);
        let hints = VideoCodecParams {
            profile: if g.below(4) == 0 { None } else { Some(g.pick(&["High", "main", "Constrained Baseline", "baseline", "High 10", "MAIN"]).to_string()) },
            level: if g.below(3) == 0 { None } else { Some(g.below(70) as u32) },
            pix_fmt: if g.below(3) == 0 { None } else { Some(g.pick(&["yuvj420p", "yuv420p", "yuvjyuvj", "nv12"]).to_string()) },
            color_range: if g.below(3) == 0 { None } else { Some(g.pick(&["tv", "pc", "unknown"]).to_string()) },
        };
        let with = g.below(3) != 0;
        let (mut a, mut b) = (Vec::new(), Vec::new());
        add_encoder_params(&mut a, encoder, if with { Some(&hints) } else { None });
        reference_params(&mut b, encoder, if with { Some(&hints) } else { None });
        assert_eq!(a, b);
    }
}

#[test]
fn names_and_lists_agree() {
    let mut g = Lcg(31);
    for _ in 0..2000 {
        let n = g.below(20000) as usize;
        let prefix = g.pick(&["clip", "", "a b"]);
        assert_eq!(build_output_file_name(prefix, n, "mp4"), format!("{}-{:03}.{}", prefix, n, "mp4"));
        let level = g.below(200) as u32;
        assert_eq!(level_to_arg(level), reference_level(level));
        let parts: Vec<String> = (0..g.below(4)).map(|_| g.pick(&["C:\\t\\a.mp4", "/t/b.mp4", "x\\\\y"]).to_string()).collect();
        let expected = parts.iter().map(|p| format!("file '{}'", p.replace('\\', "/"))).collect::<Vec<_>>().join("\n");
        assert_eq!(build_concat_list(&parts), expected);
    }
}
