use tokio_util::sync::CancellationToken;
use video_cut::registry::WaveformJobRegistry;

#[test]
fn register_evict_cancels_owner() {
    let mut r = WaveformJobRegistry::new();
    let t = CancellationToken::new();
    r.register("wf-1".into(), t.clone(), "cache-a".into());
    assert!(r.is_running("wf-1"));
    assert!(!r.is_running("wf-2"));
    assert_eq!(r.evict("cache-a"), Some("wf-1".to_string()));
    assert!(t.is_cancelled());
    assert!(!r.is_running("wf-1"));
    assert_eq!(r.evict("cache-a"), None);
}

#[test]
fn cancel_keeps_registration() {
    let mut r = WaveformJobRegistry::new();
    let t = CancellationToken::new();
    r.register("wf-1".into(), t.clone(), "k".into());
    r.cancel("wf-1");
    assert!(t.is_cancelled());
    assert!(r.is_running("wf-1"));
    r.cancel("unknown");
}

#[test]
fn remove_forgets_job_and_its_caches() {
    let mut r = WaveformJobRegistry::new();
    let t1 = CancellationToken::new();
    let t2 = CancellationToken::new();
    r.register("wf-1".into(), t1.clone(), "a".into());
    r.register("wf-2".into(), t2.clone(), "b".into());
    r.remove("wf-1");
    assert!(!r.is_running("wf-1"));
    assert!(r.is_running("wf-2"));
    assert_eq!(r.evict("a"), None);
    assert!(!t1.is_cancelled());
    assert_eq!(r.evict("b"), Some("wf-2".to_string()));
}

#[test]
fn cancel_all_cancels_and_clears_owners() {
    let mut r = WaveformJobRegistry::new();
    let t1 = CancellationToken::new();
    let t2 = CancellationToken::new();
    r.register("wf-1".into(), t1.clone(), "a".into());
    r.register("wf-2".into(), t2.clone(), "b".into());
    r.cancel_all();
    assert!(t1.is_cancelled() && t2.is_cancelled());
    assert!(r.is_running("wf-1") && r.is_running("wf-2"));
    assert_eq!(r.evict("a"), None);
}

#[test]
fn newer_registration_owns_the_cache() {
    let mut r = WaveformJobRegistry::new();
    let t1 = CancellationToken::new();
    let t2 = CancellationToken::new();
    r.register("wf-1".into(), t1.clone(), "a".into());
    r.register("wf-2".into(), t2.clone(), "a".into());
    assert_eq!(r.evict("a"), Some("wf-2".to_string()));
    assert!(t2.is_cancelled());
    assert!(!t1.is_cancelled());
    assert!(r.is_running("wf-1"));
}
