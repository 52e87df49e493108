use photosort::category::CategoryKey;
use photosort::pipeline::{
    effective_concurrency, export_dirs, extract_u128_field, should_fallback, JobStatus,
    Orchestrator,
};
use photosort::settings::{AnalysisEngine, Settings};

#[test]
fn effective_concurrency_clamps_and_respects_streaming() {
    assert_eq!(effective_concurrency(3, 8, false), 3);
    assert_eq!(effective_concurrency(16, 8, false), 8);
    assert_eq!(effective_concurrency(0, 8, false), 1);
    assert_eq!(effective_concurrency(8, 0, false), 1);
    assert_eq!(effective_concurrency(8, 8, true), 1);
}

#[test]
fn at_most_three_tasks_in_flight_over_ten_files() {
    let mut o = Orchestrator::start(10, 3);
    let mut in_flight: usize = 0;
    let mut finished: usize = 0;
    let mut max_seen: usize = 0;
    while o.status == JobStatus::Running {
        while o.can_dispatch() {
            o.dispatch();
            in_flight += 1;
            if in_flight > max_seen {
                max_seen = in_flight;
            }
        }
        assert!(in_flight <= 3);
        o.finish_task(false);
        in_flight -= 1;
        finished += 1;
    }
    assert_eq!(o.status, JobStatus::Completed);
    assert_eq!(finished, 10);
    assert_eq!(o.processed, 10);
    assert_eq!(o.errors, 0);
    assert_eq!(max_seen, 3);
}

#[test]
fn failures_count_but_do_not_abort() {
    let mut o = Orchestrator::start(2, 1);
    o.dispatch();
    o.finish_task(true);
    assert_eq!(o.status, JobStatus::Running);
    o.dispatch();
    let completed = o.finish_task(false);
    assert!(completed);
    assert_eq!(o.status, JobStatus::Completed);
    assert_eq!(o.errors, 1);
}

#[test]
fn cancellation_after_first_completion_stops_dispatch() {
    let mut o = Orchestrator::start(10, 3);
    o.dispatch();
    o.dispatch();
    o.dispatch();
    o.finish_task(false);
    o.cancel();
    assert_eq!(o.status, JobStatus::Canceled);
    assert!(!o.can_dispatch());
    assert!(o.processed < o.total);
    assert_eq!(o.processed, 1);
}

#[test]
fn empty_job_completes_at_start() {
    let o = Orchestrator::start(0, 2);
    assert_eq!(o.status, JobStatus::Completed);
    assert!(!o.can_dispatch());
    assert_eq!(o.processed, 0);
}

#[test]
fn orchestration_fault_transitions_to_error() {
    let mut o = Orchestrator::start(5, 2);
    o.fail();
    assert_eq!(o.status, JobStatus::Error);
    assert_eq!(o.errors, 1);
    assert!(!o.can_dispatch());
}

#[test]
fn snapshot_reflects_the_state() {
    let mut o = Orchestrator::start(4, 2);
    o.dispatch();
    let p = o.snapshot(&"job-1".to_string(), Some("a.jpg".to_string()));
    assert_eq!(p.job_id, "job-1");
    assert_eq!(p.status, JobStatus::Running);
    assert_eq!(p.current_file, Some("a.jpg".to_string()));
    assert_eq!(p.processed, 0);
    assert_eq!(p.total, 4);
    assert_eq!(p.errors, 0);
}

#[test]
fn fallback_applies_only_to_the_local_engine() {
    assert!(should_fallback(AnalysisEngine::Clip, true));
    assert!(!should_fallback(AnalysisEngine::Clip, false));
    assert!(!should_fallback(AnalysisEngine::Ollama, true));
}

#[test]
fn export_folders_follow_the_value_judgment() {
    let d = export_dirs(true, Some(true), CategoryKey::People);
    assert_eq!(d, vec!["가치있음".to_string(), "사람".to_string()]);
    let d = export_dirs(true, Some(false), CategoryKey::Other);
    assert_eq!(d, vec!["가치없음".to_string(), "기타".to_string()]);
    let d = export_dirs(true, None, CategoryKey::FoodCafe);
    assert_eq!(d, vec!["음식_카페".to_string()]);
    let d = export_dirs(false, Some(true), CategoryKey::FoodCafe);
    assert_eq!(d, vec!["음식_카페".to_string()]);
}

#[test]
fn timing_field_is_read_from_the_log() {
    let log = "engine: clip\nvision_infer_ms: 1234\nvalue_keep_prob: 0.5\n";
    assert_eq!(extract_u128_field(log, "vision_infer_ms: "), Some(1234));
    assert_eq!(extract_u128_field(log, "missing: "), None);
    assert_eq!(extract_u128_field("vision_infer_ms: x", "vision_infer_ms: "), None);
}

#[test]
fn settings_defaults_follow_the_machine() {
    let s = Settings::defaults(8, true);
    assert_eq!(s.analysis_concurrency, 4);
    assert!(s.clip_ep_coreml);
    assert_eq!(s.ollama_base_url, "http://127.0.0.1:11434");
    assert_eq!(s.ollama_model, "qwen2.5vl:7b");
    assert_eq!(s.analysis_max_edge, 768);
    assert_eq!(s.analysis_jpeg_quality, 60);
    assert_eq!(s.clip_model_file, "onnx/model_q4f16.onnx");
    assert_eq!(s.analysis_engine, AnalysisEngine::Clip);
    let s2 = Settings::defaults(2, false);
    assert_eq!(s2.analysis_concurrency, 2);
    assert!(!s2.clip_ep_coreml);
}

#[test]
fn saving_settings_clamps_concurrency_and_streaming() {
    let mut s = Settings::defaults(4, false);
    s.analysis_concurrency = 99;
    s.ollama_stream = true;
    let s = s.sanitized(4);
    assert_eq!(s.analysis_concurrency, 4);
    assert!(!s.ollama_stream);
    let mut s2 = Settings::defaults(4, false);
    s2.analysis_concurrency = 1;
    s2.ollama_stream = true;
    let s2 = s2.sanitized(4);
    assert_eq!(s2.analysis_concurrency, 1);
    assert!(s2.ollama_stream);
}
