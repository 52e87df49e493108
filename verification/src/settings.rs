//! The configuration document and its defaults.
//!
//! Anything that depends on the machine — how many cores it has, whether it
//! is an Apple platform — is passed in as a plain value, so every rule here
//! is a function of its arguments.

use vstd::prelude::*;

verus! {

/// Which classification strategy a job runs.
#[derive(Clone, Copy, Debug, PartialEq, Eq, Structural)]
pub enum AnalysisEngine {
    Clip,
    Ollama,
}

/// The persisted configuration document.
#[derive(Debug)]
pub struct Settings {
    pub ollama_base_url: String,
    pub ollama_model: String,
    pub ollama_think: bool,
    pub ollama_stream: bool,
    pub analysis_resize_enabled: bool,
    pub analysis_max_edge: u32,
    pub analysis_jpeg_quality: u8,
    pub analysis_value_enabled: bool,
    pub analysis_concurrency: u32,
    pub analysis_engine: AnalysisEngine,
    pub clip_model_dir: Option<String>,
    pub clip_model_file: String,
    pub clip_fallback_to_ollama: bool,
    pub clip_ep_auto: bool,
    pub clip_ep_coreml: bool,
    pub clip_ep_cuda: bool,
    pub clip_ep_rocm: bool,
    pub clip_ep_directml: bool,
    pub clip_ep_openvino: bool,
}

/// The default remote endpoint.
pub fn default_base_url() -> (r: String)
    ensures
        r@ == "http://127.0.0.1:11434"@,
{
    "http://127.0.0.1:11434".to_owned()
}

/// The default remote model name.
pub fn default_model() -> (r: String)
    ensures
        r@ == "qwen2.5vl:7b"@,
{
    "qwen2.5vl:7b".to_owned()
}

/// Resizing before transport is on by default.
pub fn default_analysis_resize_enabled() -> (r: bool)
    ensures
        r,
{
    true
}

/// The default longest edge after resizing.
pub fn default_analysis_max_edge() -> (r: u32)
    ensures
        r == 768,
{
    768
}

/// The default JPEG quality for transport encoding.
pub fn default_analysis_jpeg_quality() -> (r: u8)
    ensures
        r == 60,
{
    60
}

/// The default concurrency: one task per core, at least one and at most
/// four.
pub fn default_analysis_concurrency(cores: u32) -> (r: u32)
    ensures
        r == spec_default_concurrency(cores),
{
    let c = if cores < 1 {
        1
    } else {
        cores
    };
    if c < 4 {
        c
    } else {
        4
    }
}

/// One task per core, clamped into 1 ..= 4.
pub open spec fn spec_default_concurrency(cores: u32) -> u32 {
    let c = if cores < 1 {
        1u32
    } else {
        cores
    };
    if c < 4 {
        c
    } else {
        4u32
    }
}

/// The local embedding engine is the default strategy.
pub fn default_analysis_engine() -> (r: AnalysisEngine)
    ensures
        r == AnalysisEngine::Clip,
{
    AnalysisEngine::Clip
}

/// Falling back from the local engine to the remote strategy is off by
/// default.
pub fn default_clip_fallback_to_ollama() -> (r: bool)
    ensures
        !r,
{
    false
}

/// The default model file within the model directory.
pub fn default_clip_model_file() -> (r: String)
    ensures
        r@ == "onnx/model_q4f16.onnx"@,
{
    "onnx/model_q4f16.onnx".to_owned()
}

/// Automatic backend probing is on by default.
pub fn default_clip_ep_auto() -> (r: bool)
    ensures
        r,
{
    true
}

/// The Apple accelerator backend is enabled by default exactly on Apple
/// platforms; the caller says which platform this is.
pub fn default_clip_ep_coreml(apple_platform: bool) -> (r: bool)
    ensures
        r == apple_platform,
{
    apple_platform
}

impl Clone for Settings {
    /// A faithful copy of the configuration document.
    fn clone(&self) -> (r: Settings)
        ensures
            r == *self,
    {
        Settings {
            ollama_base_url: self.ollama_base_url.clone(),
            ollama_model: self.ollama_model.clone(),
            ollama_think: self.ollama_think,
            ollama_stream: self.ollama_stream,
            analysis_resize_enabled: self.analysis_resize_enabled,
            analysis_max_edge: self.analysis_max_edge,
            analysis_jpeg_quality: self.analysis_jpeg_quality,
            analysis_value_enabled: self.analysis_value_enabled,
            analysis_concurrency: self.analysis_concurrency,
            analysis_engine: self.analysis_engine,
            clip_model_dir: self.clip_model_dir.clone(),
            clip_model_file: self.clip_model_file.clone(),
            clip_fallback_to_ollama: self.clip_fallback_to_ollama,
            clip_ep_auto: self.clip_ep_auto,
            clip_ep_coreml: self.clip_ep_coreml,
            clip_ep_cuda: self.clip_ep_cuda,
            clip_ep_rocm: self.clip_ep_rocm,
            clip_ep_directml: self.clip_ep_directml,
            clip_ep_openvino: self.clip_ep_openvino,
        }
    }
}

impl Settings {
    /// The whole default configuration for a machine with the given core
    /// count, on or off an Apple platform.
    pub fn defaults(cores: u32, apple_platform: bool) -> (r: Settings)
        ensures
            r.ollama_base_url@ == "http://127.0.0.1:11434"@,
            r.ollama_model@ == "qwen2.5vl:7b"@,
            !r.ollama_think,
            !r.ollama_stream,
            r.analysis_resize_enabled,
            r.analysis_max_edge == 768,
            r.analysis_jpeg_quality == 60,
            !r.analysis_value_enabled,
            r.analysis_concurrency == spec_default_concurrency(cores),
            r.analysis_engine == AnalysisEngine::Clip,
            r.clip_model_dir is None,
            r.clip_model_file@ == "onnx/model_q4f16.onnx"@,
            !r.clip_fallback_to_ollama,
            r.clip_ep_auto,
            r.clip_ep_coreml == apple_platform,
            !r.clip_ep_cuda,
            !r.clip_ep_rocm,
            !r.clip_ep_directml,
            !r.clip_ep_openvino,
    {
        Settings {
            ollama_base_url: default_base_url(),
            ollama_model: default_model(),
            ollama_think: false,
            ollama_stream: false,
            analysis_resize_enabled: default_analysis_resize_enabled(),
            analysis_max_edge: default_analysis_max_edge(),
            analysis_jpeg_quality: default_analysis_jpeg_quality(),
            analysis_value_enabled: false,
            analysis_concurrency: default_analysis_concurrency(cores),
            analysis_engine: default_analysis_engine(),
            clip_model_dir: None,
            clip_model_file: default_clip_model_file(),
            clip_fallback_to_ollama: default_clip_fallback_to_ollama(),
            clip_ep_auto: default_clip_ep_auto(),
            clip_ep_coreml: default_clip_ep_coreml(apple_platform),
            clip_ep_cuda: false,
            clip_ep_rocm: false,
            clip_ep_directml: false,
            clip_ep_openvino: false,
        }
    }

    /// What saving a configuration enforces: concurrency clamped between one
    /// and the core count, and streaming switched off as soon as more than
    /// one task may run, because the streaming channel cannot be shared.
    pub fn sanitized(self, cores: u32) -> (r: Settings)
        ensures
            r.analysis_concurrency == spec_clamped_concurrency(self.analysis_concurrency, cores),
            r.ollama_stream == (self.ollama_stream && spec_clamped_concurrency(
                self.analysis_concurrency,
                cores,
            ) <= 1),
            r.ollama_base_url == self.ollama_base_url,
            r.ollama_model == self.ollama_model,
            r.ollama_think == self.ollama_think,
            r.analysis_resize_enabled == self.analysis_resize_enabled,
            r.analysis_max_edge == self.analysis_max_edge,
            r.analysis_jpeg_quality == self.analysis_jpeg_quality,
            r.analysis_value_enabled == self.analysis_value_enabled,
            r.analysis_engine == self.analysis_engine,
            r.clip_model_dir == self.clip_model_dir,
            r.clip_model_file == self.clip_model_file,
            r.clip_fallback_to_ollama == self.clip_fallback_to_ollama,
            r.clip_ep_auto == self.clip_ep_auto,
            r.clip_ep_coreml == self.clip_ep_coreml,
            r.clip_ep_cuda == self.clip_ep_cuda,
            r.clip_ep_rocm == self.clip_ep_rocm,
            r.clip_ep_directml == self.clip_ep_directml,
            r.clip_ep_openvino == self.clip_ep_openvino,
    {
        let max = if cores < 1 {
            1
        } else {
            cores
        };
        let conc = if self.analysis_concurrency < 1 {
            1
        } else if self.analysis_concurrency > max {
            max
        } else {
            self.analysis_concurrency
        };
        let stream = if conc > 1 {
            false
        } else {
            self.ollama_stream
        };
        Settings { analysis_concurrency: conc, ollama_stream: stream, ..self }
    }
}

/// Concurrency clamped between one and the machine's core count.
pub open spec fn spec_clamped_concurrency(requested: u32, cores: u32) -> u32 {
    let max = if cores < 1 {
        1u32
    } else {
        cores
    };
    if requested < 1 {
        1u32
    } else if requested > max {
        max
    } else {
        requested
    }
}

} // verus!
