//! The local embedding engine's decision logic: which execution backends to
//! try, how initialization retries when an accelerator fails, how inference
//! sessions are dispatched, and how raw model outputs become scores.
//!
//! Everything the inference runtime itself does — building sessions, running
//! the model — happens outside; this module fixes every decision around it
//! as a function of plain values.

use vstd::prelude::*;
use crate::category::{CategoryKey, category_index};
use crate::scores::{Scores, SCORE_SCALE};
use crate::textmatch::{contains_seq, lower_seq, lower_chars_of, contains_chars};

verus! {

/// How an engine instance is configured; part of the instance's identity.
#[derive(Clone, Debug)]
pub struct ClipEngineOptions {
    pub model_dir: Option<String>,
    pub model_file: String,
    pub session_pool_size: usize,
    pub intra_threads: usize,
    pub enable_value: bool,
    pub allow_ep_fallback: bool,
    pub ep_auto: bool,
    pub ep_coreml: bool,
    pub ep_cuda: bool,
    pub ep_rocm: bool,
    pub ep_directml: bool,
    pub ep_openvino: bool,
}

impl ClipEngineOptions {
    /// The default options for a machine with the given core count, on or
    /// off an Apple platform: one session, up to four intra-op threads, and
    /// the Apple accelerator enabled only there.
    pub fn defaults(cores: usize, apple_platform: bool) -> (r: ClipEngineOptions)
        ensures
            r.model_dir is None,
            r.model_file@ == "onnx/model_q4f16.onnx"@,
            r.session_pool_size == 1,
            r.intra_threads == (if cores < 1 {
                1usize
            } else if cores > 4 {
                4usize
            } else {
                cores
            }),
            !r.enable_value,
            r.allow_ep_fallback,
            r.ep_auto,
            r.ep_coreml == apple_platform,
            !r.ep_cuda,
            !r.ep_rocm,
            !r.ep_directml,
            !r.ep_openvino,
    {
        let c = if cores < 1 {
            1
        } else {
            cores
        };
        let intra = if c > 4 {
            4
        } else {
            c
        };
        ClipEngineOptions {
            model_dir: None,
            model_file: "onnx/model_q4f16.onnx".to_owned(),
            session_pool_size: 1,
            intra_threads: intra,
            enable_value: false,
            allow_ep_fallback: true,
            ep_auto: true,
            ep_coreml: apple_platform,
            ep_cuda: false,
            ep_rocm: false,
            ep_directml: false,
            ep_openvino: false,
        }
    }
}

/// The execution backends the engine can run on, in the priority order they
/// are tried; the CPU backend is the guaranteed fallback.
#[derive(Clone, Copy, Debug, PartialEq, Eq, Structural)]
pub enum ExecBackend {
    CoreMl,
    Cuda,
    Rocm,
    DirectMl,
    OpenVino,
    Cpu,
}

/// The diagnostic name of a backend.
pub open spec fn spec_backend_name(b: ExecBackend) -> Seq<char> {
    match b {
        ExecBackend::CoreMl => "coreml"@,
        ExecBackend::Cuda => "cuda"@,
        ExecBackend::Rocm => "rocm"@,
        ExecBackend::DirectMl => "directml"@,
        ExecBackend::OpenVino => "openvino"@,
        ExecBackend::Cpu => "cpu"@,
    }
}

/// Which optional backends this machine supports and has available at
/// runtime, as probed by the caller.
#[derive(Clone, Copy, Debug, PartialEq, Eq, Structural)]
pub struct BackendAvailability {
    pub coreml: bool,
    pub cuda: bool,
    pub rocm: bool,
    pub directml: bool,
    pub openvino: bool,
}

/// Whether an optional backend makes it onto the candidate list: it must be
/// enabled, automatic probing must be on, and the machine must have it.
pub open spec fn spec_backend_included(
    opts: ClipEngineOptions,
    avail: BackendAvailability,
    b: ExecBackend,
) -> bool {
    match b {
        ExecBackend::CoreMl => opts.ep_auto && opts.ep_coreml && avail.coreml,
        ExecBackend::Cuda => opts.ep_auto && opts.ep_cuda && avail.cuda,
        ExecBackend::Rocm => opts.ep_auto && opts.ep_rocm && avail.rocm,
        ExecBackend::DirectMl => opts.ep_auto && opts.ep_directml && avail.directml,
        ExecBackend::OpenVino => opts.ep_auto && opts.ep_openvino && avail.openvino,
        ExecBackend::Cpu => true,
    }
}

/// The names of a backend list joined with `+`.
pub open spec fn spec_eps_log(eps: Seq<ExecBackend>) -> Seq<char>
    decreases eps.len(),
{
    if eps.len() == 0 {
        Seq::empty()
    } else if eps.len() == 1 {
        spec_backend_name(eps[0])
    } else {
        spec_eps_log(eps.drop_last()) + seq!['+'] + spec_backend_name(eps.last())
    }
}

/// The candidate backend list for the given options and availability: each
/// optional backend in priority order when it is included, the CPU backend
/// always last.
pub open spec fn spec_backend_list(
    opts: ClipEngineOptions,
    avail: BackendAvailability,
) -> Seq<ExecBackend> {
    let s = Seq::<ExecBackend>::empty();
    let s = if spec_backend_included(opts, avail, ExecBackend::CoreMl) {
        s.push(ExecBackend::CoreMl)
    } else {
        s
    };
    let s = if spec_backend_included(opts, avail, ExecBackend::Cuda) {
        s.push(ExecBackend::Cuda)
    } else {
        s
    };
    let s = if spec_backend_included(opts, avail, ExecBackend::Rocm) {
        s.push(ExecBackend::Rocm)
    } else {
        s
    };
    let s = if spec_backend_included(opts, avail, ExecBackend::DirectMl) {
        s.push(ExecBackend::DirectMl)
    } else {
        s
    };
    let s = if spec_backend_included(opts, avail, ExecBackend::OpenVino) {
        s.push(ExecBackend::OpenVino)
    } else {
        s
    };
    s.push(ExecBackend::Cpu)
}

/// The guaranteed fallback: whatever the options say, the candidate list is
/// never empty and always ends with the CPU backend.
pub proof fn lemma_backend_list_cpu_guaranteed(opts: ClipEngineOptions, avail: BackendAvailability)
    ensures
        spec_backend_list(opts, avail).len() >= 1,
        spec_backend_list(opts, avail).last() == ExecBackend::Cpu,
{
}

/// Membership in the candidate list is exactly the inclusion rule: a
/// backend is tried if and only if it is the CPU fallback or an enabled,
/// available accelerator.
pub proof fn lemma_backend_list_members(
    opts: ClipEngineOptions,
    avail: BackendAvailability,
    b: ExecBackend,
)
    ensures
        spec_backend_list(opts, avail).contains(b) <==> spec_backend_included(opts, avail, b),
{
    let l = spec_backend_list(opts, avail);
    if spec_backend_included(opts, avail, b) {
        let i = choose|i: int| 0 <= i < l.len() && l[i] == b;
        if !l.contains(b) {
            match b {
                ExecBackend::CoreMl => {
                    assert(l[0] == ExecBackend::CoreMl);
                }
                ExecBackend::Cuda => {
                    let p: int = if spec_backend_included(opts, avail, ExecBackend::CoreMl) {
                        1
                    } else {
                        0
                    };
                    assert(l[p] == ExecBackend::Cuda);
                }
                ExecBackend::Rocm => {
                    let p: int = (if spec_backend_included(opts, avail, ExecBackend::CoreMl) {
                        1int
                    } else {
                        0int
                    }) + (if spec_backend_included(opts, avail, ExecBackend::Cuda) {
                        1int
                    } else {
                        0int
                    });
                    assert(l[p] == ExecBackend::Rocm);
                }
                ExecBackend::DirectMl => {
                    let p: int = (if spec_backend_included(opts, avail, ExecBackend::CoreMl) {
                        1int
                    } else {
                        0int
                    }) + (if spec_backend_included(opts, avail, ExecBackend::Cuda) {
                        1int
                    } else {
                        0int
                    }) + (if spec_backend_included(opts, avail, ExecBackend::Rocm) {
                        1int
                    } else {
                        0int
                    });
                    assert(l[p] == ExecBackend::DirectMl);
                }
                ExecBackend::OpenVino => {
                    let p: int = (if spec_backend_included(opts, avail, ExecBackend::CoreMl) {
                        1int
                    } else {
                        0int
                    }) + (if spec_backend_included(opts, avail, ExecBackend::Cuda) {
                        1int
                    } else {
                        0int
                    }) + (if spec_backend_included(opts, avail, ExecBackend::Rocm) {
                        1int
                    } else {
                        0int
                    }) + (if spec_backend_included(opts, avail, ExecBackend::DirectMl) {
                        1int
                    } else {
                        0int
                    });
                    assert(l[p] == ExecBackend::OpenVino);
                }
                ExecBackend::Cpu => {
                    assert(l.last() == ExecBackend::Cpu);
                }
            }
        }
    } else {
        if l.contains(b) {
            let i = choose|i: int| 0 <= i < l.len() && l[i] == b;
            assert(l[i] == b);
        }
    }
}

/// Builds the ordered candidate backend list: each enabled-and-available
/// accelerator in priority order, the CPU backend always last, and the
/// diagnostic log naming them all joined with `+`.
pub fn build_execution_providers(opts: &ClipEngineOptions, avail: &BackendAvailability) -> (r: (
    Vec<ExecBackend>,
    String,
))
    ensures
        r.0@ == spec_backend_list(*opts, *avail),
        r.0@.len() >= 1,
        r.0@.last() == ExecBackend::Cpu,
        r.1@ == spec_eps_log(r.0@),
{
    let mut eps: Vec<ExecBackend> = Vec::new();
    if opts.ep_auto && opts.ep_coreml && avail.coreml {
        eps.push(ExecBackend::CoreMl);
    }
    if opts.ep_auto && opts.ep_cuda && avail.cuda {
        eps.push(ExecBackend::Cuda);
    }
    if opts.ep_auto && opts.ep_rocm && avail.rocm {
        eps.push(ExecBackend::Rocm);
    }
    if opts.ep_auto && opts.ep_directml && avail.directml {
        eps.push(ExecBackend::DirectMl);
    }
    if opts.ep_auto && opts.ep_openvino && avail.openvino {
        eps.push(ExecBackend::OpenVino);
    }
    eps.push(ExecBackend::Cpu);
    proof {
        assert(eps@ =~= spec_backend_list(*opts, *avail));
    }
    let mut log = String::new();
    let mut i: usize = 0;
    while i < eps.len()
        invariant
            i <= eps@.len(),
            log@ == spec_eps_log(eps@.take(i as int)),
        decreases eps@.len() - i,
    {
        proof {
            reveal_strlit("+");
            assert(eps@.take(i + 1).drop_last() =~= eps@.take(i as int));
            assert(eps@.take(i + 1).last() == eps@[i as int]);
        }
        if i > 0 {
            log.append("+");
        }
        let name: &str = match eps[i] {
            ExecBackend::CoreMl => "coreml",
            ExecBackend::Cuda => "cuda",
            ExecBackend::Rocm => "rocm",
            ExecBackend::DirectMl => "directml",
            ExecBackend::OpenVino => "openvino",
            ExecBackend::Cpu => "cpu",
        };
        log.append(name);
        i += 1;
    }
    proof {
        assert(eps@.take(eps@.len() as int) =~= eps@);
    }
    (eps, log)
}

/// Whether a failed initialization may eliminate a backend and retry: only
/// when fallback is allowed, probing is automatic, and at least one optional
/// accelerator is still enabled.
pub open spec fn spec_can_drop_backend(opts: ClipEngineOptions) -> bool {
    opts.allow_ep_fallback && opts.ep_auto && (opts.ep_coreml || opts.ep_cuda || opts.ep_rocm
        || opts.ep_directml || opts.ep_openvino)
}

/// How many optional accelerators the options still enable.
pub open spec fn spec_enabled_optionals(opts: ClipEngineOptions) -> int {
    (if opts.ep_coreml {
        1int
    } else {
        0int
    }) + (if opts.ep_cuda {
        1int
    } else {
        0int
    }) + (if opts.ep_rocm {
        1int
    } else {
        0int
    }) + (if opts.ep_directml {
        1int
    } else {
        0int
    }) + (if opts.ep_openvino {
        1int
    } else {
        0int
    })
}

/// The options after eliminating the highest-priority optional accelerator
/// still enabled; with none enabled the options are unchanged.
pub open spec fn spec_drop_backend(opts: ClipEngineOptions) -> ClipEngineOptions {
    if opts.ep_coreml {
        ClipEngineOptions { ep_coreml: false, ..opts }
    } else if opts.ep_cuda {
        ClipEngineOptions { ep_cuda: false, ..opts }
    } else if opts.ep_rocm {
        ClipEngineOptions { ep_rocm: false, ..opts }
    } else if opts.ep_directml {
        ClipEngineOptions { ep_directml: false, ..opts }
    } else if opts.ep_openvino {
        ClipEngineOptions { ep_openvino: false, ..opts }
    } else {
        opts
    }
}

/// Eliminates the highest-priority optional accelerator still enabled.
fn drop_backend(opts: ClipEngineOptions) -> (r: ClipEngineOptions)
    ensures
        r == spec_drop_backend(opts),
{
    if opts.ep_coreml {
        ClipEngineOptions { ep_coreml: false, ..opts }
    } else if opts.ep_cuda {
        ClipEngineOptions { ep_cuda: false, ..opts }
    } else if opts.ep_rocm {
        ClipEngineOptions { ep_rocm: false, ..opts }
    } else if opts.ep_directml {
        ClipEngineOptions { ep_directml: false, ..opts }
    } else if opts.ep_openvino {
        ClipEngineOptions { ep_openvino: false, ..opts }
    } else {
        opts
    }
}

/// Where engine initialization stands.
#[derive(Clone, Copy, Debug, PartialEq, Eq, Structural)]
pub enum InitStage {
    BuildSession,
    Warmup,
    Ready,
    Failed,
}

/// The initialization state machine: build a session, warm it up (cache the
/// text prototypes and smoke-test the vision path), and on any failure
/// eliminate the highest-priority optional accelerator and rebuild, until
/// only the CPU fallback remains and the failure becomes fatal.
#[derive(Clone, Debug)]
pub struct EngineInit {
    pub opts: ClipEngineOptions,
    pub stage: InitStage,
}

impl EngineInit {
    /// Starts initialization with the given options.
    pub fn start(opts: ClipEngineOptions) -> (r: EngineInit)
        ensures
            r.opts == opts,
            r.stage == InitStage::BuildSession,
    {
        EngineInit { opts, stage: InitStage::BuildSession }
    }

    /// The session was built: move on to warmup.
    pub fn on_session_built(self) -> (r: EngineInit)
        requires
            self.stage == InitStage::BuildSession,
        ensures
            r.opts == self.opts,
            r.stage == InitStage::Warmup,
    {
        EngineInit { stage: InitStage::Warmup, ..self }
    }

    /// Session construction failed: eliminate the next optional accelerator
    /// and rebuild while one remains, otherwise fail for good.
    pub fn on_session_build_failed(self) -> (r: EngineInit)
        requires
            self.stage == InitStage::BuildSession,
        ensures
            spec_can_drop_backend(self.opts) ==> r.opts == spec_drop_backend(self.opts)
                && r.stage == InitStage::BuildSession,
            !spec_can_drop_backend(self.opts) ==> r.opts == self.opts && r.stage
                == InitStage::Failed,
    {
        if self.opts.allow_ep_fallback && self.opts.ep_auto && (self.opts.ep_coreml
            || self.opts.ep_cuda || self.opts.ep_rocm || self.opts.ep_directml
            || self.opts.ep_openvino) {
            EngineInit { opts: drop_backend(self.opts), stage: InitStage::BuildSession }
        } else {
            EngineInit { stage: InitStage::Failed, ..self }
        }
    }

    /// Warmup (text-prototype caching and the vision smoke test) succeeded:
    /// the configuration is validated and the engine is ready.
    pub fn on_warmup_ok(self) -> (r: EngineInit)
        requires
            self.stage == InitStage::Warmup,
        ensures
            r.opts == self.opts,
            r.stage == InitStage::Ready,
    {
        EngineInit { stage: InitStage::Ready, ..self }
    }

    /// Warmup failed at runtime: the same elimination rule applies as for a
    /// failed build.
    pub fn on_warmup_failed(self) -> (r: EngineInit)
        requires
            self.stage == InitStage::Warmup,
        ensures
            spec_can_drop_backend(self.opts) ==> r.opts == spec_drop_backend(self.opts)
                && r.stage == InitStage::BuildSession,
            !spec_can_drop_backend(self.opts) ==> r.opts == self.opts && r.stage
                == InitStage::Failed,
    {
        if self.opts.allow_ep_fallback && self.opts.ep_auto && (self.opts.ep_coreml
            || self.opts.ep_cuda || self.opts.ep_rocm || self.opts.ep_directml
            || self.opts.ep_openvino) {
            EngineInit { opts: drop_backend(self.opts), stage: InitStage::BuildSession }
        } else {
            EngineInit { stage: InitStage::Failed, ..self }
        }
    }
}

/// With no optional accelerator enabled there is nothing to eliminate: any
/// initialization failure is fatal at once, never a retry.
pub proof fn lemma_cpu_only_fails_fast(opts: ClipEngineOptions)
    requires
        !opts.ep_coreml,
        !opts.ep_cuda,
        !opts.ep_rocm,
        !opts.ep_directml,
        !opts.ep_openvino,
    ensures
        !spec_can_drop_backend(opts),
{
}

/// Elimination is bounded by the number of enabled optional accelerators:
/// each retry permanently disables exactly one, and with none left a
/// failure can only be fatal.
pub proof fn lemma_elimination_bounded(opts: ClipEngineOptions)
    ensures
        spec_can_drop_backend(opts) ==> spec_enabled_optionals(spec_drop_backend(opts))
            == spec_enabled_optionals(opts) - 1,
        spec_enabled_optionals(opts) == 0 ==> !spec_can_drop_backend(opts),
        spec_enabled_optionals(opts) >= 0,
{
}

/// Round-robin dispatch over the session pool: a monotonically increasing
/// counter reduced modulo the pool size.
#[derive(Clone, Copy, Debug, PartialEq, Eq, Structural)]
pub struct SessionDispatch {
    pub counter: u64,
    pub pool_size: usize,
}

impl SessionDispatch {
    /// A dispatcher over a non-empty pool, starting at the first session.
    pub fn new(pool_size: usize) -> (r: SessionDispatch)
        requires
            pool_size >= 1,
        ensures
            r.counter == 0,
            r.pool_size == pool_size,
    {
        SessionDispatch { counter: 0, pool_size }
    }

    /// The next session index: the counter modulo the pool size; the counter
    /// advances by one, wrapping around at its maximum.
    pub fn next(&mut self) -> (r: usize)
        requires
            old(self).pool_size >= 1,
        ensures
            r as int == old(self).counter as int % old(self).pool_size as int,
            r < old(self).pool_size,
            final(self).pool_size == old(self).pool_size,
            final(self).counter == (if old(self).counter == u64::MAX {
                0u64
            } else {
                (old(self).counter + 1) as u64
            }),
    {
        let idx = (self.counter % (self.pool_size as u64)) as usize;
        self.counter = if self.counter == u64::MAX {
            0
        } else {
            self.counter + 1
        };
        idx
    }
}

/// What can go wrong on the verified side of a classification call.
#[derive(Clone, Copy, Debug, PartialEq, Eq, Structural)]
pub enum EngineError {
    OutputNotFound,
    InputsNotResolved,
    EmptyEmbedding,
    SoftmaxLengthMismatch,
}

/// Assembles the per-category probabilities (in score units, canonical
/// order) into a `Scores` value and takes its arg-max; anything but exactly
/// eight probabilities is rejected.
pub fn scores_from_probs(probs: &Vec<u64>) -> (r: Result<(Scores, CategoryKey, u64), EngineError>)
    ensures
        probs@.len() == 8 ==> (r matches Ok(t) && (forall|i: int|
            0 <= i < 8 ==> #[trigger] t.0.value_at(i) == probs@[i]) && 0 <= category_index(t.1) < 8
            && t.2 == t.0.value_at(category_index(t.1)) && (forall|j: int|
            0 <= j < 8 ==> t.0.value_at(j) <= t.2) && (forall|j: int|
            0 <= j < category_index(t.1) ==> t.0.value_at(j) < t.2)),
        probs@.len() != 8 ==> r == Err::<(Scores, CategoryKey, u64), EngineError>(
            EngineError::SoftmaxLengthMismatch,
        ),
{
    if probs.len() != 8 {
        return Err(EngineError::SoftmaxLengthMismatch);
    }
    let s = Scores {
        screenshot_document: probs[0],
        people: probs[1],
        food_cafe: probs[2],
        nature_landscape: probs[3],
        city_street_travel: probs[4],
        pets_animals: probs[5],
        products_objects: probs[6],
        other: probs[7],
    };
    let (cat, top) = s.top();
    Ok((s, cat, top))
}

/// The value judgment: an image is called valuable exactly when the keep
/// probability reaches one half.
pub fn value_judgment(keep_prob: u64) -> (r: bool)
    ensures
        r == (keep_prob >= SCORE_SCALE / 2),
{
    keep_prob >= SCORE_SCALE / 2
}

/// The fixed length of the text-tower token encoding.
pub const TEXT_ENCODING_LEN: usize = 77;

/// Pads or truncates a token sequence to the fixed 77-token encoding,
/// filling with the pad token; the attention mask is padded with zeros.
pub fn encode_fixed_77(ids: &Vec<i64>, mask: &Vec<i64>, pad_id: i64) -> (r: (Vec<i64>, Vec<i64>))
    ensures
        r.0@.len() == 77,
        r.1@.len() == 77,
        forall|k: int|
            0 <= k < 77 ==> #[trigger] r.0@[k] == (if k < ids@.len() {
                ids@[k]
            } else {
                pad_id
            }),
        forall|k: int|
            0 <= k < 77 ==> #[trigger] r.1@[k] == (if k < mask@.len() {
                mask@[k]
            } else {
                0i64
            }),
{
    let mut out_ids: Vec<i64> = Vec::new();
    let mut k: usize = 0;
    while k < 77
        invariant
            k <= 77,
            out_ids@.len() == k,
            forall|j: int|
                0 <= j < k ==> #[trigger] out_ids@[j] == (if j < ids@.len() {
                    ids@[j]
                } else {
                    pad_id
                }),
        decreases 77 - k,
    {
        if k < ids.len() {
            out_ids.push(ids[k]);
        } else {
            out_ids.push(pad_id);
        }
        k += 1;
    }
    let mut out_mask: Vec<i64> = Vec::new();
    let mut k2: usize = 0;
    while k2 < 77
        invariant
            k2 <= 77,
            out_mask@.len() == k2,
            forall|j: int|
                0 <= j < k2 ==> #[trigger] out_mask@[j] == (if j < mask@.len() {
                    mask@[j]
                } else {
                    0i64
                }),
        decreases 77 - k2,
    {
        if k2 < mask.len() {
            out_mask.push(mask[k2]);
        } else {
            out_mask.push(0);
        }
        k2 += 1;
    }
    (out_ids, out_mask)
}

/// Whether a declared model output satisfies one wanted name: equal to it or
/// containing it, ignoring ASCII case.
pub open spec fn output_matches(o: Seq<char>, p: Seq<char>) -> bool {
    lower_seq(o) == lower_seq(p) || contains_seq(lower_seq(o), lower_seq(p))
}

/// The first declared output matching the wanted name, from position `i`.
pub open spec fn first_match_from(outputs: Seq<String>, p: Seq<char>, i: int) -> Option<int>
    decreases outputs.len() - i,
{
    if i < 0 || i >= outputs.len() {
        None
    } else if output_matches(outputs[i]@, p) {
        Some(i)
    } else {
        first_match_from(outputs, p, i + 1)
    }
}

/// The name resolution result: the first wanted name any output matches,
/// that output's declared name.
pub open spec fn spec_pick_output(
    outputs: Seq<String>,
    priorities: Seq<String>,
    pi: int,
) -> Option<Seq<char>>
    decreases priorities.len() - pi,
{
    if pi < 0 || pi >= priorities.len() {
        None
    } else {
        match first_match_from(outputs, priorities[pi]@, 0) {
            Some(oi) => Some(outputs[oi]@),
            None => spec_pick_output(outputs, priorities, pi + 1),
        }
    }
}

/// Resolves a required model output by case-insensitive name matching
/// against the declared outputs, trying each wanted name in order; fails
/// when no declared output matches any wanted name.
pub fn pick_output_name(outputs: &Vec<String>, priorities: &Vec<String>) -> (r: Result<
    String,
    EngineError,
>)
    ensures
        match r {
            Ok(name) => spec_pick_output(outputs@, priorities@, 0) == Some(name@),
            Err(e) => spec_pick_output(outputs@, priorities@, 0) is None && e
                == EngineError::OutputNotFound,
        },
{
    let mut pi: usize = 0;
    while pi < priorities.len()
        invariant
            pi <= priorities@.len(),
            spec_pick_output(outputs@, priorities@, 0) == spec_pick_output(
                outputs@,
                priorities@,
                pi as int,
            ),
        decreases priorities@.len() - pi,
    {
        let p = &priorities[pi];
        let pl = lower_chars_of(p.as_str());
        let mut oi: usize = 0;
        while oi < outputs.len()
            invariant
                pi < priorities@.len(),
                oi <= outputs@.len(),
                p == &priorities@[pi as int],
                pl@ == lower_seq(p@),
                spec_pick_output(outputs@, priorities@, 0) == spec_pick_output(
                    outputs@,
                    priorities@,
                    pi as int,
                ),
                first_match_from(outputs@, p@, 0) == first_match_from(outputs@, p@, oi as int),
            decreases outputs@.len() - oi,
        {
            let o = &outputs[oi];
            let ol = lower_chars_of(o.as_str());
            let hit = if ol.len() == pl.len() {
                let mut eq = true;
                let mut k: usize = 0;
                while k < ol.len() && eq
                    invariant
                        ol@.len() == pl@.len(),
                        k <= ol@.len(),
                        eq ==> forall|j: int| 0 <= j < k ==> ol@[j] == pl@[j],
                        !eq ==> ol@ != pl@,
                    decreases ol@.len() - k + (if eq {
                        1int
                    } else {
                        0int
                    }),
                {
                    if ol[k] != pl[k] {
                        eq = false;
                    } else {
                        k += 1;
                    }
                }
                if eq {
                    proof {
                        assert(ol@ =~= pl@);
                    }
                }
                eq || contains_chars(&ol, &pl)
            } else {
                contains_chars(&ol, &pl)
            };
            if hit {
                proof {
                    assert(output_matches(outputs@[oi as int]@, p@));
                    assert(first_match_from(outputs@, p@, oi as int) == Some(oi as int));
                    assert(spec_pick_output(outputs@, priorities@, pi as int) == Some(
                        outputs@[oi as int]@,
                    ));
                }
                let name = o.clone();
                proof {
                    assert(name@ == outputs@[oi as int]@);
                }
                return Ok(name);
            }
            proof {
                assert(!output_matches(outputs@[oi as int]@, p@));
                assert(first_match_from(outputs@, p@, oi as int) == first_match_from(
                    outputs@,
                    p@,
                    oi + 1,
                ));
            }
            oi += 1;
        }
        proof {
            assert(first_match_from(outputs@, p@, oi as int) is None);
            assert(spec_pick_output(outputs@, priorities@, pi as int) == spec_pick_output(
                outputs@,
                priorities@,
                pi + 1,
            ));
        }
        pi += 1;
    }
    Err(EngineError::OutputNotFound)
}

/// The view of an optional owned string.
pub open spec fn opt_str_view(o: Option<String>) -> Option<Seq<char>> {
    match o {
        Some(s) => Some(s@),
        None => None,
    }
}

/// One pass over the declared model inputs, assigning each of the three
/// expected roles to the first input whose lowercased name fits it.
pub open spec fn spec_resolve_inputs(
    names: Seq<String>,
    i: int,
    ids: Option<Seq<char>>,
    mask: Option<Seq<char>>,
    pixel: Option<Seq<char>>,
) -> (Option<Seq<char>>, Option<Seq<char>>, Option<Seq<char>>)
    decreases names.len() - i,
{
    if i < 0 || i >= names.len() {
        (ids, mask, pixel)
    } else {
        let low = lower_seq(names[i]@);
        if ids is None && (contains_seq(low, lower_seq("input_ids"@)) || low == lower_seq(
            "input"@,
        )) {
            spec_resolve_inputs(names, i + 1, Some(names[i]@), mask, pixel)
        } else if mask is None && contains_seq(low, lower_seq("attention_mask"@)) {
            spec_resolve_inputs(names, i + 1, ids, Some(names[i]@), pixel)
        } else if pixel is None && (contains_seq(low, lower_seq("pixel_values"@)) || contains_seq(
            low,
            lower_seq("pixel"@),
        )) {
            spec_resolve_inputs(names, i + 1, ids, mask, Some(names[i]@))
        } else {
            spec_resolve_inputs(names, i + 1, ids, mask, pixel)
        }
    }
}

/// Resolves the three expected input tensor names — token ids, attention
/// mask, pixel tensor — by case-insensitive substring matching against the
/// model's declared inputs; fails when any role stays unassigned.
pub fn resolve_input_names(names: &Vec<String>) -> (r: Result<
    (String, String, String),
    EngineError,
>)
    ensures
        ({
            let f = spec_resolve_inputs(names@, 0, None, None, None);
            match r {
                Ok(t) => f.0 == Some(t.0@) && f.1 == Some(t.1@) && f.2 == Some(t.2@),
                Err(e) => (f.0 is None || f.1 is None || f.2 is None) && e
                    == EngineError::InputsNotResolved,
            }
        }),
{
    let needle_ids = lower_chars_of("input_ids");
    let needle_input = lower_chars_of("input");
    let needle_mask = lower_chars_of("attention_mask");
    let needle_pixel_values = lower_chars_of("pixel_values");
    let needle_pixel = lower_chars_of("pixel");
    let mut ids_o: Option<String> = None;
    let mut mask_o: Option<String> = None;
    let mut pixel_o: Option<String> = None;
    let mut i: usize = 0;
    while i < names.len()
        invariant
            i <= names@.len(),
            needle_ids@ == lower_seq("input_ids"@),
            needle_input@ == lower_seq("input"@),
            needle_mask@ == lower_seq("attention_mask"@),
            needle_pixel_values@ == lower_seq("pixel_values"@),
            needle_pixel@ == lower_seq("pixel"@),
            spec_resolve_inputs(names@, 0, None, None, None) == spec_resolve_inputs(
                names@,
                i as int,
                opt_str_view(ids_o),
                opt_str_view(mask_o),
                opt_str_view(pixel_o),
            ),
        decreases names@.len() - i,
    {
        let name = &names[i];
        let low = lower_chars_of(name.as_str());
        let low_eq_input = {
            let mut eq = low.len() == needle_input.len();
            let mut k: usize = 0;
            while k < low.len() && eq
                invariant
                    low@.len() == needle_input@.len() || !eq,
                    k <= low@.len(),
                    eq ==> forall|j: int| 0 <= j < k ==> low@[j] == needle_input@[j],
                    !eq ==> low@ != needle_input@,
                decreases low@.len() - k + (if eq {
                    1int
                } else {
                    0int
                }),
            {
                if low[k] != needle_input[k] {
                    eq = false;
                } else {
                    k += 1;
                }
            }
            proof {
                if eq {
                    assert(low@ =~= needle_input@);
                }
            }
            eq
        };
        if ids_o.is_none() && (contains_chars(&low, &needle_ids) || low_eq_input) {
            ids_o = Some(name.clone());
        } else if mask_o.is_none() && contains_chars(&low, &needle_mask) {
            mask_o = Some(name.clone());
        } else if pixel_o.is_none() && (contains_chars(&low, &needle_pixel_values)
            || contains_chars(&low, &needle_pixel)) {
            pixel_o = Some(name.clone());
        }
        i += 1;
    }
    match (ids_o, mask_o, pixel_o) {
        (Some(a), Some(b), Some(c)) => Ok((a, b, c)),
        _ => Err(EngineError::InputsNotResolved),
    }
}

/// Picks the model directory: candidates are tried in order — an explicit
/// override first, then the fixed fallback locations — and the first one
/// that holds the required artifacts wins; the caller probes each candidate
/// and hands the results in.
pub fn pick_model_dir(candidates: &Vec<String>, has_artifacts: &Vec<bool>) -> (r: Option<usize>)
    requires
        candidates@.len() == has_artifacts@.len(),
    ensures
        match r {
            Some(i) => i < candidates@.len() && has_artifacts@[i as int] && (forall|j: int|
                0 <= j < i ==> !has_artifacts@[j]),
            None => forall|j: int| 0 <= j < has_artifacts@.len() ==> !has_artifacts@[j],
        },
{
    let mut i: usize = 0;
    while i < has_artifacts.len()
        invariant
            candidates@.len() == has_artifacts@.len(),
            i <= has_artifacts@.len(),
            forall|j: int| 0 <= j < i ==> !has_artifacts@[j],
        decreases has_artifacts@.len() - i,
    {
        if has_artifacts[i] {
            return Some(i);
        }
        i += 1;
    }
    None
}

} // verus!
