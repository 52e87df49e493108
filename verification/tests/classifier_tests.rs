use photosort::classifier::{
    build_classifier, clip_options_from_settings, derive_clip_threads, engine_cache_key,
    ClassifierChoice, EngineRegistry,
};
use photosort::prompts::{
    all_category_prompts, flatten_category_prompts, prompts_for, value_drop_prompts,
    value_keep_prompts,
};
use photosort::category::CategoryKey;
use photosort::settings::{AnalysisEngine, Settings};

#[test]
fn thread_derivation_splits_cores_over_the_pool() {
    let mut s = Settings::defaults(8, false);
    s.analysis_concurrency = 4;
    assert_eq!(derive_clip_threads(&s, 8), (4, 2));
    s.analysis_concurrency = 3;
    assert_eq!(derive_clip_threads(&s, 8), (3, 3));
    s.analysis_concurrency = 16;
    assert_eq!(derive_clip_threads(&s, 8), (8, 1));
    s.analysis_concurrency = 0;
    assert_eq!(derive_clip_threads(&s, 0), (1, 1));
}

#[test]
fn classifier_choice_follows_the_settings() {
    let mut s = Settings::defaults(4, false);
    s.analysis_engine = AnalysisEngine::Ollama;
    let (engine, choice) = build_classifier(&s, 4);
    assert_eq!(engine, AnalysisEngine::Ollama);
    assert!(matches!(choice, ClassifierChoice::Ollama(_)));

    s.analysis_engine = AnalysisEngine::Clip;
    s.analysis_value_enabled = true;
    let (engine, choice) = build_classifier(&s, 4);
    assert_eq!(engine, AnalysisEngine::Clip);
    match choice {
        ClassifierChoice::Clip(c) => {
            assert!(c.opts.enable_value);
            assert!(c.opts.allow_ep_fallback);
        }
        ClassifierChoice::Ollama(_) => panic!("expected the local engine"),
    }
}

#[test]
fn cache_key_writes_every_identity_field() {
    let s = Settings::defaults(4, false);
    let opts = clip_options_from_settings(&s, 4);
    let key = engine_cache_key(&opts);
    assert_eq!(
        key,
        "dir=<auto>;file=onnx/model_q4f16.onnx;pool=4;intra=1;value=false;auto=true;coreml=false;cuda=false;rocm=false;directml=false;openvino=false"
    );
}

#[test]
fn registry_reuses_same_key_and_replaces_different() {
    let mut reg = EngineRegistry::new();
    assert!(reg.must_construct("k1"));
    reg.install("k1".to_string());
    assert!(!reg.must_construct("k1"));
    assert!(reg.must_construct("k2"));
    reg.install("k2".to_string());
    assert!(!reg.must_construct("k2"));
    assert!(reg.must_construct("k1"));
}

#[test]
fn prompt_bank_is_versioned_per_category() {
    for k in CategoryKey::all() {
        assert_eq!(prompts_for(k).len(), 3);
    }
    assert_eq!(prompts_for(CategoryKey::People)[0], "a photo of people");
    assert_eq!(prompts_for(CategoryKey::Other)[2], "something else");
}

#[test]
fn prompt_batch_is_flat_and_ordered() {
    let groups = all_category_prompts();
    assert_eq!(groups.len(), 8);
    assert_eq!(groups[0].0, CategoryKey::ScreenshotDocument);
    let flat = flatten_category_prompts();
    assert_eq!(flat.len(), 24);
    assert_eq!(flat[0].0, CategoryKey::ScreenshotDocument);
    assert_eq!(flat[3].0, CategoryKey::People);
    assert_eq!(flat[3].1, "a photo of people");
    assert_eq!(flat[23].0, CategoryKey::Other);
}

#[test]
fn value_prompt_sets_are_disjoint() {
    let keep = value_keep_prompts();
    let drop = value_drop_prompts();
    assert_eq!(keep.len(), 4);
    assert_eq!(drop.len(), 4);
    for k in &keep {
        assert!(!drop.contains(k));
    }
}
