use photosort::engine::{
    build_execution_providers, encode_fixed_77, pick_model_dir, pick_output_name,
    resolve_input_names, scores_from_probs, value_judgment, BackendAvailability,
    ClipEngineOptions, EngineError, EngineInit, ExecBackend, InitStage, SessionDispatch,
};
use photosort::category::CategoryKey;
use photosort::scores::SCORE_SCALE;

fn cpu_only_opts() -> ClipEngineOptions {
    ClipEngineOptions {
        model_dir: None,
        model_file: "onnx/model_q4f16.onnx".to_string(),
        session_pool_size: 1,
        intra_threads: 1,
        enable_value: false,
        allow_ep_fallback: true,
        ep_auto: true,
        ep_coreml: false,
        ep_cuda: false,
        ep_rocm: false,
        ep_directml: false,
        ep_openvino: false,
    }
}

fn no_accel() -> BackendAvailability {
    BackendAvailability { coreml: false, cuda: false, rocm: false, directml: false, openvino: false }
}

#[test]
fn cpu_is_always_the_last_backend() {
    let (eps, log) = build_execution_providers(&cpu_only_opts(), &no_accel());
    assert_eq!(eps, vec![ExecBackend::Cpu]);
    assert_eq!(log, "cpu");
}

#[test]
fn enabled_available_backends_come_before_cpu() {
    let mut opts = cpu_only_opts();
    opts.ep_coreml = true;
    opts.ep_cuda = true;
    let avail = BackendAvailability { coreml: true, cuda: true, ..no_accel() };
    let (eps, log) = build_execution_providers(&opts, &avail);
    assert_eq!(eps, vec![ExecBackend::CoreMl, ExecBackend::Cuda, ExecBackend::Cpu]);
    assert_eq!(log, "coreml+cuda+cpu");
}

#[test]
fn unavailable_backends_are_silently_skipped() {
    let mut opts = cpu_only_opts();
    opts.ep_coreml = true;
    let (eps, log) = build_execution_providers(&opts, &no_accel());
    assert_eq!(eps, vec![ExecBackend::Cpu]);
    assert_eq!(log, "cpu");
}

#[test]
fn disabled_probing_keeps_cpu_only() {
    let mut opts = cpu_only_opts();
    opts.ep_auto = false;
    opts.ep_coreml = true;
    let avail = BackendAvailability { coreml: true, ..no_accel() };
    let (eps, _) = build_execution_providers(&opts, &avail);
    assert_eq!(eps, vec![ExecBackend::Cpu]);
}

#[test]
fn cpu_only_engine_fails_fast() {
    let init = EngineInit::start(cpu_only_opts());
    let failed = init.on_session_build_failed();
    assert_eq!(failed.stage, InitStage::Failed);
}

#[test]
fn each_failure_drops_the_next_accelerator_in_priority_order() {
    let mut opts = cpu_only_opts();
    opts.ep_coreml = true;
    opts.ep_cuda = true;
    opts.ep_openvino = true;
    let init = EngineInit::start(opts);
    let first = init.on_session_build_failed();
    assert_eq!(first.stage, InitStage::BuildSession);
    assert!(!first.opts.ep_coreml);
    assert!(first.opts.ep_cuda);
    assert!(first.opts.ep_openvino);
    let second = first.on_session_build_failed();
    assert_eq!(second.stage, InitStage::BuildSession);
    assert!(!second.opts.ep_cuda);
    assert!(second.opts.ep_openvino);
    let third = second.on_session_build_failed();
    assert_eq!(third.stage, InitStage::BuildSession);
    assert!(!third.opts.ep_openvino);
    let failed = third.on_session_build_failed();
    assert_eq!(failed.stage, InitStage::Failed);
}

#[test]
fn elimination_stops_when_only_cpu_remains() {
    let mut opts = cpu_only_opts();
    opts.ep_coreml = true;
    let init = EngineInit::start(opts);
    let retried = init.on_session_build_failed();
    assert_eq!(retried.stage, InitStage::BuildSession);
    assert!(!retried.opts.ep_coreml);
    let failed = retried.on_session_build_failed();
    assert_eq!(failed.stage, InitStage::Failed);
}

#[test]
fn warmup_failure_also_eliminates_the_accelerator() {
    let mut opts = cpu_only_opts();
    opts.ep_coreml = true;
    let init = EngineInit::start(opts).on_session_built();
    assert_eq!(init.stage, InitStage::Warmup);
    let retried = init.on_warmup_failed();
    assert_eq!(retried.stage, InitStage::BuildSession);
    assert!(!retried.opts.ep_coreml);
    let ready = retried.on_session_built().on_warmup_ok();
    assert_eq!(ready.stage, InitStage::Ready);
}

#[test]
fn round_robin_wraps_modulo_pool_size() {
    let mut d = SessionDispatch::new(3);
    let picks: Vec<usize> = (0..7).map(|_| d.next()).collect();
    assert_eq!(picks, vec![0, 1, 2, 0, 1, 2, 0]);
}

#[test]
fn scores_from_probs_assigns_canonical_order() {
    let probs = vec![10u64, 20, 30, 40, 900000, 0, 0, 0];
    let (s, cat, top) = scores_from_probs(&probs).unwrap();
    assert_eq!(s.city_street_travel, 900000);
    assert_eq!(cat, CategoryKey::CityStreetTravel);
    assert_eq!(top, 900000);
}

#[test]
fn scores_from_probs_rejects_wrong_length() {
    let probs = vec![1u64, 2, 3];
    assert_eq!(scores_from_probs(&probs), Err(EngineError::SoftmaxLengthMismatch));
}

#[test]
fn value_judgment_cuts_at_one_half() {
    assert!(value_judgment(SCORE_SCALE / 2));
    assert!(value_judgment(SCORE_SCALE));
    assert!(!value_judgment(SCORE_SCALE / 2 - 1));
    assert!(!value_judgment(0));
}

#[test]
fn token_encoding_pads_to_77() {
    let ids = vec![5i64, 6, 7];
    let mask = vec![1i64, 1, 1];
    let (out_ids, out_mask) = encode_fixed_77(&ids, &mask, 99);
    assert_eq!(out_ids.len(), 77);
    assert_eq!(out_mask.len(), 77);
    assert_eq!(&out_ids[0..3], &[5, 6, 7]);
    assert_eq!(out_ids[3], 99);
    assert_eq!(out_ids[76], 99);
    assert_eq!(&out_mask[0..3], &[1, 1, 1]);
    assert_eq!(out_mask[3], 0);
}

#[test]
fn token_encoding_truncates_past_77() {
    let ids: Vec<i64> = (0..100).collect();
    let mask = vec![1i64; 100];
    let (out_ids, out_mask) = encode_fixed_77(&ids, &mask, 99);
    assert_eq!(out_ids.len(), 77);
    assert_eq!(out_ids[76], 76);
    assert_eq!(out_mask[76], 1);
}

#[test]
fn output_name_matching_is_case_insensitive_substring() {
    let outputs = vec!["logits".to_string(), "Image_Embeds".to_string()];
    let priorities = vec!["image_embeds".to_string()];
    assert_eq!(pick_output_name(&outputs, &priorities).unwrap(), "Image_Embeds");
}

#[test]
fn output_name_priorities_are_tried_in_order() {
    let outputs = vec!["vision_embeds_out".to_string(), "text_features".to_string()];
    let priorities = vec!["image_embeds".to_string(), "vision_embeds".to_string()];
    assert_eq!(pick_output_name(&outputs, &priorities).unwrap(), "vision_embeds_out");
}

#[test]
fn missing_output_is_an_error() {
    let outputs = vec!["logits".to_string()];
    let priorities = vec!["image_embeds".to_string()];
    assert_eq!(pick_output_name(&outputs, &priorities), Err(EngineError::OutputNotFound));
}

#[test]
fn input_names_resolve_by_role() {
    let names = vec![
        "input_ids".to_string(),
        "attention_mask".to_string(),
        "pixel_values".to_string(),
    ];
    let (a, b, c) = resolve_input_names(&names).unwrap();
    assert_eq!(a, "input_ids");
    assert_eq!(b, "attention_mask");
    assert_eq!(c, "pixel_values");
}

#[test]
fn missing_input_role_is_an_error() {
    let names = vec!["input_ids".to_string(), "pixel_values".to_string()];
    assert_eq!(resolve_input_names(&names), Err(EngineError::InputsNotResolved));
}

#[test]
fn default_options_clamp_threads() {
    let o = ClipEngineOptions::defaults(16, false);
    assert_eq!(o.intra_threads, 4);
    assert_eq!(o.session_pool_size, 1);
    assert!(!o.ep_coreml);
    let o2 = ClipEngineOptions::defaults(2, true);
    assert_eq!(o2.intra_threads, 2);
    assert!(o2.ep_coreml);
}

#[test]
fn model_dir_takes_the_first_candidate_with_artifacts() {
    let candidates = vec![
        "/override".to_string(),
        "models/a".to_string(),
        "../models/a".to_string(),
    ];
    assert_eq!(pick_model_dir(&candidates, &vec![false, true, true]), Some(1));
    assert_eq!(pick_model_dir(&candidates, &vec![true, false, true]), Some(0));
    assert_eq!(pick_model_dir(&candidates, &vec![false, false, false]), None);
}
