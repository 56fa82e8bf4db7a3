use video_cut::config::config_with_key;
use video_cut::config::{
    config_needs_save, default_theme, output_folder_checked, system_theme_from, validate_output_folder,
    validate_theme, validated_config, zoom_scale_or_default, AppConfig,
};
use video_cut::error::AppError;
use video_cut::session::{fault_error, PrunedSegment, Session, SessionFault};

#[test]
fn defaults() {
    let c = AppConfig::default();
    assert_eq!(c.theme, "dark");
    assert_eq!(c.output_folder, "");
    assert_eq!(f64::from_bits(c.zoom_scale), 1.0);
    assert_eq!(default_theme(), "dark");
}

#[test]
fn zoom_scale_range() {
    let z = |x: f64| f64::from_bits(zoom_scale_or_default(Some(x.to_bits())));
    assert_eq!(z(0.25), 0.25);
    assert_eq!(z(5.0), 5.0);
    assert_eq!(z(2.5), 2.5);
    assert_eq!(z(0.2), 1.0);
    assert_eq!(z(5.5), 1.0);
    assert_eq!(z(-1.0), 1.0);
    assert_eq!(z(f64::NAN), 1.0);
    assert_eq!(f64::from_bits(zoom_scale_or_default(None)), 1.0);
}

#[test]
fn system_theme_from_registry_output() {
    assert_eq!(system_theme_from("    AppsUseLightTheme    REG_DWORD    0x0"), "dark");
    assert_eq!(system_theme_from("    AppsUseLightTheme    REG_DWORD    0x1"), "light");
    assert_eq!(system_theme_from("ERROR: not found"), "dark");
}

#[test]
fn themes() {
    assert_eq!(validate_theme("light", "dark"), "light");
    assert_eq!(validate_theme("dark", "light"), "dark");
    assert_eq!(validate_theme("solarized", "light"), "light");
    assert_eq!(validate_theme("", "dark"), "dark");
}

#[test]
fn output_folders() {
    assert_eq!(output_folder_checked("D:\\exports", true), "D:\\exports");
    assert_eq!(output_folder_checked("exports", false), "");
    assert_eq!(output_folder_checked("", true), "");
    for bad in ["D:\\a<b", "D:\\a>b", "D:\\a\"b", "D:\\a|b", "D:\\a?b", "D:\\a*b"] {
        assert_eq!(output_folder_checked(bad, true), "", "{}", bad);
    }
    assert_eq!(validate_output_folder(""), "");
    assert_eq!(validate_output_folder("relative/dir"), "");
    let unix_style = std::path::Path::new("/home/user/out").is_absolute();
    let abs = if unix_style { "/home/user/out" } else { "C:\\out" };
    assert_eq!(validate_output_folder(abs), abs);
    let bad = if unix_style { "/home/o?t" } else { "C:\\o?t" };
    assert_eq!(validate_output_folder(bad), "");
}

#[test]
fn validated_settings_and_saving() {
    let c = AppConfig { theme: "blue".into(), output_folder: "rel".into(), zoom_scale: 2.0f64.to_bits() };
    let v = validated_config(&c, "light");
    assert_eq!((v.theme.as_str(), v.output_folder.as_str(), v.zoom_scale), ("light", "", 2.0f64.to_bits()));
    assert!(config_needs_save(true, &c, &v));
    assert!(!config_needs_save(true, &v, &v.clone()));
    assert!(config_needs_save(false, &v, &v.clone()));
}

fn seg(start: f64, end: f64) -> PrunedSegment {
    PrunedSegment { id: "s".into(), start: start.to_bits(), end: end.to_bits() }
}

#[test]
fn blank_sessions() {
    let s = Session::blank();
    assert!(s.is_blank());
    assert_eq!(s.validate(false), Ok(()));
    let t = Session { file_path: None, segments: Some(vec![]), audio_tracks: Some(vec![]) };
    assert!(t.is_blank());
    let u = Session { file_path: None, segments: None, audio_tracks: Some(vec![1]) };
    assert!(!u.is_blank());
    assert_eq!(u.validate(true), Err(SessionFault::MissingFilePath));
}

#[test]
fn session_faults() {
    let mk = |segs: Vec<PrunedSegment>, tracks: Vec<i32>| Session {
        file_path: Some("/v.mp4".into()),
        segments: Some(segs),
        audio_tracks: Some(tracks),
    };
    assert_eq!(mk(vec![seg(0.0, 1.0)], vec![1]).validate(false), Err(SessionFault::FileMissing));
    assert_eq!(mk(vec![seg(0.0, 1.0), seg(2.0, 2.0), seg(-1.0, 3.0)], vec![]).validate(true), Err(SessionFault::InvalidSegment(1)));
    assert_eq!(mk(vec![seg(-0.5, 1.0)], vec![]).validate(true), Err(SessionFault::InvalidSegment(0)));
    assert_eq!(mk(vec![seg(0.0, 1.0)], vec![0, -2]).validate(true), Err(SessionFault::NegativeTrack));
    assert_eq!(mk(vec![seg(0.0, 1.0), seg(-0.0, 0.5)], vec![0, 3]).validate(true), Ok(()));
    assert_eq!(mk(vec![seg(f64::NAN, 1.0)], vec![]).validate(true), Ok(()));
}

#[test]
fn fault_messages() {
    let text = |e: AppError| match e {
        AppError::Other(m) => m,
        other => panic!("{:?}", other),
    };
    assert_eq!(text(fault_error(SessionFault::MissingFilePath, "", "", "")), "session: missing file_path");
    assert_eq!(text(fault_error(SessionFault::FileMissing, "/v.mp4", "", "")), "session: file does not exist: /v.mp4");
    assert_eq!(text(fault_error(SessionFault::InvalidSegment(0), "", "2", "1.5")), "session: invalid segment range [2, 1.5]");
    assert_eq!(text(fault_error(SessionFault::NegativeTrack, "", "", "")), "session: negative audio track id");
}

#[test]
fn validation_is_idempotent() {
    for theme in ["dark", "light", "solarized", ""] {
        for system in ["dark", "light"] {
            let once = validate_theme(theme, system);
            assert_eq!(validate_theme(&once, system), once);
        }
    }
    for path in ["D:\\out", "D:\\o|t", ""] {
        let once = output_folder_checked(path, true);
        assert_eq!(output_folder_checked(&once, true), once);
    }
}

#[test]
fn validating_a_folder_twice_changes_nothing() {
    let unix_style = std::path::Path::new("/home/user/out").is_absolute();
    let abs = if unix_style { "/home/user/out" } else { "C:\\out" };
    for p in [abs, "", "relative/dir", "/home/o?t", "C:\\o*t"] {
        let once = validate_output_folder(p);
        assert_eq!(validate_output_folder(&once), once, "{}", p);
    }
    let c = AppConfig { theme: "dark".into(), output_folder: abs.into(), zoom_scale: 1.0f64.to_bits() };
    let v = validated_config(&c, "light");
    assert_eq!((v.theme.as_str(), v.output_folder.as_str()), ("dark", abs));
}

#[test]
fn one_setting_written_into_the_file() {
    let fresh = config_with_key(None, "theme", "\"light\"").unwrap();
    assert_eq!(serde_json::from_str::<serde_json::Value>(&fresh).unwrap(), serde_json::from_str::<serde_json::Value>("{\"theme\":\"light\"}").unwrap());
    assert_eq!(fresh, "{\n  \"theme\": \"light\"\n}");
    let kept = config_with_key(Some("{\"zoomScale\": 2.0, \"theme\": \"dark\"}"), "theme", "\"light\"").unwrap();
    assert_eq!(kept, "{\n  \"theme\": \"light\",\n  \"zoomScale\": 2.0\n}");
    let replaced = config_with_key(Some("[1, 2]"), "outputFolder", "\"D:\\\\out\"").unwrap();
    assert_eq!(replaced, "{\n  \"outputFolder\": \"D:\\\\out\"\n}");
    match config_with_key(Some("{not json"), "theme", "\"light\"") {
        Err(AppError::ConfigError(m)) => assert_eq!(m, "Failed to parse config file"),
        other => panic!("expected a config error, got {:?}", other),
    }
    match config_with_key(Some("{}"), "theme", "light") {
        Err(AppError::JsonError(m)) => assert_eq!(m, "Invalid JSON value"),
        other => panic!("expected a JSON error, got {:?}", other),
    }
}
