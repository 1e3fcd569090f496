use audio_probe::{
    AdmissionGate, AudioInfo, AudioProbe, AudioProbeError, ResolveInput, summarize,
};

fn target(path: &str, exists: bool) -> ResolveInput {
    ResolveInput {
        path: String::from(path),
        exists,
        file_size: 40000,
        probe: None,
        elapsed_ms: 1,
    }
}

fn mixed_targets() -> Vec<ResolveInput> {
    vec![
        target("a.mp3", true),
        target("b.wav", true),
        target("missing.mp3", false),
        target("c.flac", true),
    ]
}

// One outcome per target, whatever the concurrency limit.
#[test]
fn run_yields_one_outcome_per_target_limit_one() {
    let probe = AudioProbe::new(1, false);
    let results = probe.process_files(mixed_targets());
    assert_eq!(results.len(), 4);
}

#[test]
fn run_yields_one_outcome_per_target_limit_n() {
    let probe = AudioProbe::new(4, false);
    let results = probe.process_files(mixed_targets());
    assert_eq!(results.len(), 4);
}

#[test]
fn run_yields_one_outcome_per_target_limit_large() {
    let probe = AudioProbe::new(14, false);
    let results = probe.process_files(mixed_targets());
    assert_eq!(results.len(), 4);
}

// A failing target never aborts the batch; outcomes keep target order.
#[test]
fn failures_do_not_abort_batch() {
    let probe = AudioProbe::new(2, false);
    let results = probe.process_files(mixed_targets());
    assert!(results[0].is_ok());
    assert!(results[1].is_ok());
    assert!(matches!(&results[2], Err(AudioProbeError::FileNotFound { .. })));
    assert!(results[3].is_ok());
}

// The permit pool never over-issues and never loses a permit.
#[test]
fn gate_conserves_permits() {
    let mut gate = AdmissionGate::new(3);
    assert_eq!(gate.limit(), 3);
    assert_eq!(gate.available(), 3);
    assert_eq!(gate.held(), 0);
    gate.acquire();
    gate.acquire();
    assert_eq!(gate.held(), 2);
    assert_eq!(gate.available(), 1);
    assert!(gate.held() <= gate.limit());
    assert_eq!(gate.held() + gate.available(), gate.limit());
    gate.release();
    assert_eq!(gate.held(), 1);
    assert_eq!(gate.available(), 2);
    gate.acquire();
    gate.acquire();
    assert_eq!(gate.held(), 3);
    assert_eq!(gate.available(), 0);
    assert!(gate.held() <= gate.limit());
    gate.release();
    gate.release();
    gate.release();
    assert_eq!(gate.held(), 0);
    assert_eq!(gate.available(), 3);
}

fn ok_record(duration_ms: u64, size: u64) -> Result<AudioInfo, AudioProbeError> {
    let mut rec = AudioInfo::new(String::from("f.mp3"));
    rec.duration_ms = duration_ms;
    rec.file_size = size;
    Ok(rec)
}

// Three successes and two failures: counts and sums over successes only.
#[test]
fn summarize_counts_and_sums() {
    let outcomes = vec![
        ok_record(10000, 100),
        Err(AudioProbeError::FileNotFound { path: String::from("x") }),
        ok_record(20000, 200),
        ok_record(30000, 300),
        Err(AudioProbeError::Processing(String::from("bad"))),
    ];
    let (successes, failures, stats) = summarize(outcomes, 5500);
    assert_eq!(stats.total_files, 5);
    assert_eq!(stats.successful, 3);
    assert_eq!(stats.failed, 2);
    assert_eq!(stats.processing_time_ms, 5500);
    assert_eq!(stats.total_duration_ms, 60000);
    assert_eq!(stats.total_size_bytes, 600);
    assert_eq!(successes.len(), 3);
    assert_eq!(failures.len(), 2);
    // each partition keeps the original order
    assert_eq!(successes[0].duration_ms, 10000);
    assert_eq!(successes[1].duration_ms, 20000);
    assert_eq!(successes[2].duration_ms, 30000);
    assert!(matches!(&failures[0], AudioProbeError::FileNotFound { .. }));
    assert!(matches!(&failures[1], AudioProbeError::Processing(_)));
}

#[test]
fn summarize_empty_batch() {
    let (successes, failures, stats) = summarize(Vec::new(), 42);
    assert_eq!(stats.total_files, 0);
    assert_eq!(stats.successful, 0);
    assert_eq!(stats.failed, 0);
    assert_eq!(stats.total_duration_ms, 0);
    assert_eq!(stats.total_size_bytes, 0);
    assert!(successes.is_empty());
    assert!(failures.is_empty());
}
