use video_cut::progress::{failure_message, progress_time_fields, time_pattern, StderrTail};

fn fields(h: &str, m: &str, s: &str) -> Option<(String, String, String)> {
    Some((h.to_string(), m.to_string(), s.to_string()))
}

#[test]
fn time_fields_of_a_progress_line() {
    let line = "frame=  250 fps= 50 q=-1.0 size=    2048kB time=00:01:02.50 bitrate=2000.0kbits/s speed=2x";
    assert_eq!(progress_time_fields(line), fields("00", "01", "02.50"));
    assert_eq!(progress_time_fields("time=12:34:56.78"), fields("12", "34", "56.78"));
}

#[test]
fn lines_without_time_fields() {
    assert_eq!(progress_time_fields(""), None);
    assert_eq!(progress_time_fields("Input #0, mov,mp4,m4a,3gp,3g2,mj2, from 'a.mp4':"), None);
    assert_eq!(progress_time_fields("time=1:02:03.00"), None);
    assert_eq!(progress_time_fields("time=00:00:05.5 bitrate"), None);
    assert_eq!(progress_time_fields("time=N/A"), None);
}

#[test]
fn the_time_pattern() {
    assert_eq!(time_pattern(), r"time=(\d{2}):(\d{2}):(\d{2}\.\d{2})");
}

#[test]
fn tail_keeps_the_last_hundred_lines() {
    let mut t = StderrTail::new();
    for i in 0..105 {
        t.push(format!("line {}", i));
    }
    assert_eq!(t.len(), 100);
    let m = failure_message("exit code: 1", &t);
    let expected: Vec<String> = (5..105).map(|i| format!("line {}", i)).collect();
    assert_eq!(
        m,
        format!("FFmpeg exited with status: exit code: 1\n--- FFmpeg Stderr Log ---\n{}", expected.join("\n"))
    );
}

#[test]
fn failure_message_without_output() {
    let t = StderrTail::new();
    assert_eq!(
        failure_message("exit code: 2", &t),
        "FFmpeg exited with status: exit code: 2\n--- FFmpeg Stderr Log ---\n[No log output captured]"
    );
    let mut one_empty = StderrTail::new();
    one_empty.push(String::new());
    assert_eq!(
        failure_message("exit code: 2", &one_empty),
        "FFmpeg exited with status: exit code: 2\n--- FFmpeg Stderr Log ---\n[No log output captured]"
    );
    let mut two = StderrTail::new();
    two.push("a".to_string());
    two.push("b".to_string());
    assert_eq!(failure_message("s", &two), "FFmpeg exited with status: s\n--- FFmpeg Stderr Log ---\na\nb");
}
