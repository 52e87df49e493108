//! Strategy selection: one uniform contract over the local embedding engine
//! and the remote model, plus the process-wide engine-instance registry
//! keyed by configuration.

use vstd::prelude::*;
use crate::engine::ClipEngineOptions;
use crate::export::{spec_digits, spec_bool_str, fmt_u64, fmt_bool};
use crate::settings::{AnalysisEngine, Settings};
use crate::category::str_eq;

verus! {

/// The remote strategy: classification through the configured endpoint.
#[derive(Clone, Debug)]
pub struct OllamaClassifier {
    pub settings: Settings,
}

/// The local strategy: classification through the embedding engine.
#[derive(Clone, Debug)]
pub struct ClipClassifier {
    pub opts: ClipEngineOptions,
}

/// Exactly the two strategies the orchestrator can run.
#[derive(Clone, Debug)]
pub enum ClassifierChoice {
    Ollama(OllamaClassifier),
    Clip(ClipClassifier),
}

/// The session pool size and per-session thread count derived from the
/// configured concurrency on a machine with `cores` cores: as many sessions
/// as concurrent tasks (at most one per core), and the cores divided among
/// them, rounded up.
pub open spec fn spec_clip_threads(requested: u32, cores: usize) -> (usize, usize) {
    let cores1: usize = if cores < 1 {
        1usize
    } else {
        cores
    };
    let req: usize = if requested < 1 {
        1usize
    } else {
        requested as usize
    };
    let pool: usize = if req > cores1 {
        cores1
    } else {
        req
    };
    let intra: int = cores1 as int / pool as int + (if cores1 as int % pool as int == 0 {
        0int
    } else {
        1int
    });
    (pool, (if intra < 1 { 1int } else { intra }) as usize)
}

/// Derives the session pool size and intra-op thread count from the
/// settings for this machine.
pub fn derive_clip_threads(settings: &Settings, cores: usize) -> (r: (usize, usize))
    ensures
        r == spec_clip_threads(settings.analysis_concurrency, cores),
        r.0 >= 1,
        r.1 >= 1,
{
    let cores1: usize = if cores < 1 {
        1
    } else {
        cores
    };
    let req: usize = if settings.analysis_concurrency < 1 {
        1
    } else {
        settings.analysis_concurrency as usize
    };
    let pool: usize = if req > cores1 {
        cores1
    } else {
        req
    };
    let q: usize = cores1 / pool;
    let intra: usize = if cores1 % pool == 0 {
        q
    } else {
        proof {
            assert(pool >= 2);
            vstd::arithmetic::div_mod::lemma_fundamental_div_mod(cores1 as int, pool as int);
            vstd::arithmetic::div_mod::lemma_mod_division_less_than_divisor(
                cores1 as int,
                pool as int,
            );
            vstd::arithmetic::div_mod::lemma_div_pos_is_pos(cores1 as int, pool as int);
            assert(2 * (cores1 as int / pool as int) <= pool as int * (cores1 as int
                / pool as int)) by (nonlinear_arith)
                requires
                    pool >= 2,
                    cores1 as int / pool as int >= 0,
            ;
        }
        q + 1
    };
    let intra = if intra < 1 {
        1
    } else {
        intra
    };
    (pool, intra)
}

/// The engine options a job derives from the settings on this machine.
pub fn clip_options_from_settings(settings: &Settings, cores: usize) -> (r: ClipEngineOptions)
    ensures
        r.model_dir == settings.clip_model_dir,
        r.model_file == settings.clip_model_file,
        (r.session_pool_size, r.intra_threads) == spec_clip_threads(
            settings.analysis_concurrency,
            cores,
        ),
        r.enable_value == settings.analysis_value_enabled,
        r.allow_ep_fallback,
        r.ep_auto == settings.clip_ep_auto,
        r.ep_coreml == settings.clip_ep_coreml,
        r.ep_cuda == settings.clip_ep_cuda,
        r.ep_rocm == settings.clip_ep_rocm,
        r.ep_directml == settings.clip_ep_directml,
        r.ep_openvino == settings.clip_ep_openvino,
{
    let (pool, intra) = derive_clip_threads(settings, cores);
    ClipEngineOptions {
        model_dir: settings.clip_model_dir.clone(),
        model_file: settings.clip_model_file.clone(),
        session_pool_size: pool,
        intra_threads: intra,
        enable_value: settings.analysis_value_enabled,
        allow_ep_fallback: true,
        ep_auto: settings.clip_ep_auto,
        ep_coreml: settings.clip_ep_coreml,
        ep_cuda: settings.clip_ep_cuda,
        ep_rocm: settings.clip_ep_rocm,
        ep_directml: settings.clip_ep_directml,
        ep_openvino: settings.clip_ep_openvino,
    }
}

/// Picks the strategy the settings call for, configured from them: the
/// orchestrator never branches on the strategy type afterwards.
pub fn build_classifier(settings: &Settings, cores: usize) -> (r: (
    AnalysisEngine,
    ClassifierChoice,
))
    ensures
        r.0 == settings.analysis_engine,
        settings.analysis_engine == AnalysisEngine::Ollama ==> (r.1 matches
            ClassifierChoice::Ollama(c) && c.settings == *settings),
        settings.analysis_engine == AnalysisEngine::Clip ==> (r.1 matches ClassifierChoice::Clip(c)
            && c.opts.model_dir == settings.clip_model_dir && c.opts.model_file
            == settings.clip_model_file && (c.opts.session_pool_size, c.opts.intra_threads)
            == spec_clip_threads(settings.analysis_concurrency, cores) && c.opts.enable_value
            == settings.analysis_value_enabled && c.opts.allow_ep_fallback && c.opts.ep_auto
            == settings.clip_ep_auto && c.opts.ep_coreml == settings.clip_ep_coreml
            && c.opts.ep_cuda == settings.clip_ep_cuda && c.opts.ep_rocm == settings.clip_ep_rocm
            && c.opts.ep_directml == settings.clip_ep_directml && c.opts.ep_openvino
            == settings.clip_ep_openvino),
{
    match settings.analysis_engine {
        AnalysisEngine::Ollama => (
            AnalysisEngine::Ollama,
            ClassifierChoice::Ollama(OllamaClassifier { settings: settings.clone() }),
        ),
        AnalysisEngine::Clip => (
            AnalysisEngine::Clip,
            ClassifierChoice::Clip(
                ClipClassifier { opts: clip_options_from_settings(settings, cores) },
            ),
        ),
    }
}

/// The configuration fingerprint that identifies one engine instance: every
/// option that takes part in the instance's identity, written out.
pub open spec fn spec_cache_key(o: ClipEngineOptions) -> Seq<char> {
    "dir="@ + (match o.model_dir {
        Some(d) => d@,
        None => "<auto>"@,
    }) + ";file="@ + o.model_file@ + ";pool="@ + spec_digits(o.session_pool_size as nat)
        + ";intra="@ + spec_digits(o.intra_threads as nat) + ";value="@ + spec_bool_str(
        o.enable_value,
    ) + ";auto="@ + spec_bool_str(o.ep_auto) + ";coreml="@ + spec_bool_str(o.ep_coreml) + ";cuda="@
        + spec_bool_str(o.ep_cuda) + ";rocm="@ + spec_bool_str(o.ep_rocm) + ";directml="@
        + spec_bool_str(o.ep_directml) + ";openvino="@ + spec_bool_str(o.ep_openvino)
}

/// Writes the configuration fingerprint of an engine instance.
pub fn engine_cache_key(opts: &ClipEngineOptions) -> (r: String)
    ensures
        r@ == spec_cache_key(*opts),
{
    let mut s = "dir=".to_owned();
    match &opts.model_dir {
        Some(d) => s.append(d.as_str()),
        None => s.append("<auto>"),
    }
    s.append(";file=");
    s.append(opts.model_file.as_str());
    s.append(";pool=");
    let pool = fmt_u64(opts.session_pool_size as u64);
    s.append(pool.as_str());
    s.append(";intra=");
    let intra = fmt_u64(opts.intra_threads as u64);
    s.append(intra.as_str());
    s.append(";value=");
    s.append(fmt_bool(opts.enable_value));
    s.append(";auto=");
    s.append(fmt_bool(opts.ep_auto));
    s.append(";coreml=");
    s.append(fmt_bool(opts.ep_coreml));
    s.append(";cuda=");
    s.append(fmt_bool(opts.ep_cuda));
    s.append(";rocm=");
    s.append(fmt_bool(opts.ep_rocm));
    s.append(";directml=");
    s.append(fmt_bool(opts.ep_directml));
    s.append(";openvino=");
    s.append(fmt_bool(opts.ep_openvino));
    proof {
        assert(s@ =~= spec_cache_key(*opts));
    }
    s
}

/// The process-wide engine registry: at most one live engine instance,
/// remembered under its configuration fingerprint.  Asking for the same
/// fingerprint reuses the instance; a different one replaces it.
#[derive(Clone, Debug)]
pub struct EngineRegistry {
    pub key: Option<String>,
}

impl EngineRegistry {
    /// An empty registry: no engine instance yet.
    pub fn new() -> (r: EngineRegistry)
        ensures
            r.key is None,
    {
        EngineRegistry { key: None }
    }

    /// Whether a request with this fingerprint must construct a new
    /// instance: only when no instance is held or the held one differs.
    pub fn must_construct(&self, key: &str) -> (r: bool)
        ensures
            r == !(self.key matches Some(k) && k@ == key@),
    {
        match &self.key {
            Some(k) => !str_eq(k.as_str(), key),
            None => true,
        }
    }

    /// Records that the instance with this fingerprint is now the one held.
    pub fn install(&mut self, key: String)
        ensures
            final(self).key == Some(key),
    {
        self.key = Some(key);
    }
}

} // verus!
