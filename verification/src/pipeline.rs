//! The batch job orchestrator: a bounded pool of concurrent classification
//! tasks over a fixed file list, with cooperative cancellation, per-item
//! failure accounting and progress reporting.
//!
//! The orchestrator here is the decision core: from its state and each
//! event — a slot freed, a task finished, cancellation observed — it says
//! what happens next.  The caller performs the tasks and feeds the events
//! back; whatever order they arrive in, the in-flight count never exceeds
//! the effective concurrency, and nothing is dispatched after cancellation.

use vstd::prelude::*;
use crate::category::{CategoryKey, spec_dir_name};
use crate::settings::AnalysisEngine;
use crate::textmatch::{chars_of, substring_at};

verus! {

/// Where a job stands.
#[derive(Clone, Copy, Debug, PartialEq, Eq, Structural)]
pub enum JobStatus {
    Idle,
    Running,
    Completed,
    Canceled,
    Error,
}

/// A job's progress snapshot, published after every completion.
#[derive(Clone, Debug)]
pub struct Progress {
    pub job_id: String,
    pub status: JobStatus,
    pub current_file: Option<String>,
    pub processed: usize,
    pub total: usize,
    pub errors: usize,
}

/// What the last started job ran with.
#[derive(Clone, Debug)]
pub struct JobMeta {
    pub export_root: String,
    pub engine: AnalysisEngine,
}

/// The concurrency a job actually runs with: the configured level clamped
/// between one and the core count — and one, regardless, when the remote
/// streaming mode is on, because its channel cannot be shared.
pub open spec fn spec_effective_concurrency(requested: u32, cores: usize, streaming: bool) -> int {
    if streaming {
        1
    } else {
        let cores1: int = if cores < 1 {
            1
        } else {
            cores as int
        };
        let req: int = if requested < 1 {
            1
        } else {
            requested as int
        };
        if req > cores1 {
            cores1
        } else {
            req
        }
    }
}

/// Computes the effective concurrency for a job.
pub fn effective_concurrency(requested: u32, cores: usize, streaming: bool) -> (r: usize)
    ensures
        r as int == spec_effective_concurrency(requested, cores, streaming),
        r >= 1,
{
    if streaming {
        1
    } else {
        let cores1: usize = if cores < 1 {
            1
        } else {
            cores
        };
        let req: usize = if requested < 1 {
            1
        } else {
            requested as usize
        };
        if req > cores1 {
            cores1
        } else {
            req
        }
    }
}

/// The orchestrator's state: how many files exist, how many were handed to
/// tasks, how many tasks run now, and how many finished (with how many
/// failures).
#[derive(Clone, Copy, Debug, PartialEq, Eq, Structural)]
pub struct Orchestrator {
    pub concurrency: usize,
    pub total: usize,
    pub dispatched: usize,
    pub running: usize,
    pub processed: usize,
    pub errors: usize,
    pub status: JobStatus,
}

impl Orchestrator {
    /// What always holds of a job in flight: the concurrency bound on the
    /// running tasks, and consistent accounting — every dispatched file is
    /// either still running or processed.
    pub open spec fn wf(self) -> bool {
        &&& self.concurrency >= 1
        &&& self.running <= self.concurrency
        &&& self.dispatched <= self.total
        &&& self.processed + self.running == self.dispatched
        &&& self.errors <= self.processed
    }

    /// Whether another file may be dispatched now.
    pub open spec fn spec_can_dispatch(self) -> bool {
        self.status == JobStatus::Running && self.running < self.concurrency && self.dispatched
            < self.total
    }

    /// A new job over `total` files at the given effective concurrency; a
    /// job with nothing to do is complete at once.
    pub fn start(total: usize, concurrency: usize) -> (r: Orchestrator)
        requires
            concurrency >= 1,
        ensures
            r.wf(),
            r.total == total,
            r.concurrency == concurrency,
            r.dispatched == 0,
            r.running == 0,
            r.processed == 0,
            r.errors == 0,
            r.status == (if total == 0 {
                JobStatus::Completed
            } else {
                JobStatus::Running
            }),
    {
        Orchestrator {
            concurrency,
            total,
            dispatched: 0,
            running: 0,
            processed: 0,
            errors: 0,
            status: if total == 0 {
                JobStatus::Completed
            } else {
                JobStatus::Running
            },
        }
    }

    /// Whether another file may be dispatched now: only while the job still
    /// runs, a slot is free, and files remain.
    pub fn can_dispatch(&self) -> (r: bool)
        ensures
            r == self.spec_can_dispatch(),
    {
        match self.status {
            JobStatus::Running => self.running < self.concurrency && self.dispatched < self.total,
            _ => false,
        }
    }

    /// Dispatches the next file into a free slot and says which file it is.
    pub fn dispatch(&mut self) -> (r: usize)
        requires
            old(self).wf(),
            old(self).spec_can_dispatch(),
        ensures
            final(self).wf(),
            r == old(self).dispatched,
            r < old(self).total,
            final(self).dispatched == old(self).dispatched + 1,
            final(self).running == old(self).running + 1,
            final(self).running <= final(self).concurrency,
            final(self).processed == old(self).processed,
            final(self).errors == old(self).errors,
            final(self).status == old(self).status,
            final(self).total == old(self).total,
            final(self).concurrency == old(self).concurrency,
    {
        let idx = self.dispatched;
        self.dispatched += 1;
        self.running += 1;
        idx
    }

    /// Books one finished task, failed or not: the slot frees, the
    /// processed count grows, and the job completes exactly when every file
    /// has been processed.
    pub fn finish_task(&mut self, failed: bool) -> (completed: bool)
        requires
            old(self).wf(),
            old(self).status == JobStatus::Running,
            old(self).running >= 1,
        ensures
            final(self).wf(),
            final(self).processed == old(self).processed + 1,
            final(self).running == old(self).running - 1,
            final(self).dispatched == old(self).dispatched,
            final(self).errors == old(self).errors + (if failed {
                1int
            } else {
                0int
            }),
            final(self).total == old(self).total,
            final(self).concurrency == old(self).concurrency,
            completed == (old(self).processed + 1 == old(self).total),
            final(self).status == (if old(self).processed + 1 == old(self).total {
                JobStatus::Completed
            } else {
                JobStatus::Running
            }),
    {
        self.processed += 1;
        self.running -= 1;
        if failed {
            self.errors += 1;
        }
        if self.processed == self.total {
            self.status = JobStatus::Completed;
            true
        } else {
            false
        }
    }

    /// Observes the cancellation signal: the job ends as `Canceled` and
    /// nothing further is dispatched; tasks already in flight are left to
    /// finish or abort outside.
    pub fn cancel(&mut self)
        requires
            old(self).wf(),
            old(self).status == JobStatus::Running,
        ensures
            final(self).wf(),
            final(self).status == JobStatus::Canceled,
            !final(self).spec_can_dispatch(),
            final(self).processed == old(self).processed,
            final(self).running == old(self).running,
            final(self).dispatched == old(self).dispatched,
            final(self).errors == old(self).errors,
            final(self).total == old(self).total,
            final(self).concurrency == old(self).concurrency,
    {
        self.status = JobStatus::Canceled;
    }

    /// Books an orchestration-level fault: the job ends as `Error` with one
    /// more error and nothing further is dispatched.
    pub fn fail(&mut self)
        requires
            old(self).wf(),
            old(self).status == JobStatus::Running,
            old(self).errors < usize::MAX,
            old(self).processed < old(self).total || old(self).errors < old(self).processed,
        ensures
            final(self).status == JobStatus::Error,
            !final(self).spec_can_dispatch(),
            final(self).errors == old(self).errors + 1,
    {
        self.status = JobStatus::Error;
        self.errors += 1;
    }

    /// The published snapshot of this state.
    pub fn snapshot(&self, job_id: &String, current_file: Option<String>) -> (r: Progress)
        ensures
            r.job_id == *job_id,
            r.status == self.status,
            r.current_file == current_file,
            r.processed == self.processed,
            r.total == self.total,
            r.errors == self.errors,
    {
        Progress {
            job_id: job_id.clone(),
            status: self.status,
            current_file,
            processed: self.processed,
            total: self.total,
            errors: self.errors,
        }
    }
}

/// Concurrency bound law: in every reachable orchestrator state, the tasks
/// in flight never exceed the effective concurrency — dispatching requires
/// a free slot and every transition keeps the bound.
pub proof fn lemma_concurrency_bound(o: Orchestrator)
    requires
        o.wf(),
    ensures
        o.running <= o.concurrency,
        o.spec_can_dispatch() ==> o.running + 1 <= o.concurrency,
{
}

/// Cancellation law: once cancellation is observed the status is final and
/// no state with status `Canceled` allows another dispatch; a canceled job
/// with tasks still in flight has processed strictly fewer files than the
/// total.
pub proof fn lemma_cancel_stops_dispatch(o: Orchestrator)
    requires
        o.wf(),
        o.status == JobStatus::Canceled,
    ensures
        !o.spec_can_dispatch(),
        o.running >= 1 ==> o.processed < o.total,
{
}

/// Whether a failed local classification is retried once through the
/// remote strategy.
pub fn should_fallback(engine: AnalysisEngine, fallback_enabled: bool) -> (r: bool)
    ensures
        r == (engine == AnalysisEngine::Clip && fallback_enabled),
{
    match engine {
        AnalysisEngine::Clip => fallback_enabled,
        AnalysisEngine::Ollama => false,
    }
}

/// The folder chain an export goes under: when value judgment is on, a
/// valuable/not-valuable parent folder precedes the category folder; with
/// no judgment, the category folder alone.
pub fn export_dirs(value_enabled: bool, is_valuable: Option<bool>, category: CategoryKey) -> (r:
    Vec<String>)
    ensures
        value_enabled && is_valuable == Some(true) ==> r@.len() == 2 && r@[0]@ == "가치있음"@
            && r@[1]@ == spec_dir_name(category),
        value_enabled && is_valuable == Some(false) ==> r@.len() == 2 && r@[0]@ == "가치없음"@
            && r@[1]@ == spec_dir_name(category),
        (!value_enabled || is_valuable is None) ==> r@.len() == 1 && r@[0]@ == spec_dir_name(
            category,
        ),
{
    let mut v: Vec<String> = Vec::new();
    if value_enabled {
        match is_valuable {
            Some(true) => v.push("가치있음".to_owned()),
            Some(false) => v.push("가치없음".to_owned()),
            None => (),
        }
    }
    v.push(category.dir_name_ko().to_owned());
    v
}

/// The first position where `n` occurs in `h`, if any.
pub open spec fn first_occurrence(h: Seq<char>, n: Seq<char>, i: int) -> Option<int>
    decreases h.len() - i + 1,
{
    if i < 0 || i + n.len() > h.len() {
        None
    } else if substring_at(h, n, i) {
        Some(i)
    } else {
        first_occurrence(h, n, i + 1)
    }
}

/// The digits following the key's first `key: ` marker in a diagnostic
/// log, read as a number: how the orchestrator recovers per-call timings
/// from the diagnostics it stores.
pub open spec fn spec_extract_field(log: Seq<char>, needle: Seq<char>) -> Option<int> {
    match first_occurrence(log, needle, 0) {
        Some(p) => {
            let after = log.subrange(p + needle.len(), log.len() as int);
            let digits = after.take(digit_run_len(after, 0));
            if digits.len() == 0 || digits.len() > 38 {
                None
            } else {
                Some(crate::ollama::digits_val(digits) as int)
            }
        }
        None => None,
    }
}

/// The length of the leading digit run from position `i`.
pub open spec fn digit_run_len(s: Seq<char>, i: int) -> int
    decreases s.len() - i,
{
    if i < 0 || i >= s.len() {
        if i < 0 {
            0
        } else {
            i
        }
    } else if crate::ollama::is_digit(s[i]) {
        digit_run_len(s, i + 1)
    } else {
        i
    }
}

/// Finds `key: ` in a diagnostic log and reads the number after it; more
/// than 38 digits will not fit and give nothing.
pub fn extract_u128_field(log: &str, needle: &str) -> (r: Option<u128>)
    ensures
        match r {
            Some(v) => spec_extract_field(log@, needle@) == Some(v as int),
            None => spec_extract_field(log@, needle@) is None,
        },
{
    let lcs = chars_of(log);
    let ncs = chars_of(needle);
    let loglen: usize = lcs.len();
    let pos = match find_first(&lcs, &ncs) {
        Some(p) => p,
        None => {
            return None;
        }
    };
    let start = pos + ncs.len();
    let ghost after = log@.subrange(start as int, log@.len() as int);
    let mut k: usize = start;
    let mut v: u128 = 0;
    let mut count: usize = 0;
    let mut stop = false;
    proof {
        assert(after.subrange(0, 0) =~= Seq::<char>::empty());
    }
    while k < lcs.len() && count < 38 && !stop
        invariant
            lcs@ == log@,
            ncs@ == needle@,
            start == pos + ncs@.len(),
            start <= lcs@.len(),
            k == start + count,
            k <= lcs@.len(),
            count <= 38,
            after == log@.subrange(start as int, log@.len() as int),
            forall|j: int| 0 <= j < count ==> crate::ollama::is_digit(#[trigger] after[j]),
            stop ==> k < lcs@.len() && !crate::ollama::is_digit(after[count as int]),
            (v as nat) == crate::ollama::digits_val(after.subrange(0, count as int)),
            (v as nat) < crate::ollama::pow10(count as nat),
        decreases lcs@.len() - k + (if stop {
            0int
        } else {
            1int
        }),
    {
        let c = lcs[k];
        let cu = c as u32;
        proof {
            assert(after[count as int] == log@[k as int]);
        }
        if !(48 <= cu && cu <= 57) {
            stop = true;
        } else {
            let d: u128 = (cu - 48) as u128;
            proof {
                assert(after.subrange(0, count + 1).drop_last() =~= after.subrange(
                    0,
                    count as int,
                ));
                assert(after.subrange(0, count + 1).last() == after[count as int]);
                assert(crate::ollama::pow10((count + 1) as nat) == 10 * crate::ollama::pow10(
                    count as nat,
                ));
                lemma_pow10_small(count as nat);
            }
            v = v * 10 + d;
            count += 1;
            k += 1;
        }
    }
    if count == 0 {
        proof {
            if stop {
                lemma_digit_run_from(after, 0, 0);
            } else {
                assert(k == start);
                assert(after.len() == 0);
                lemma_digit_run_from(after, 0, 0);
            }
            assert(after.take(0) =~= Seq::<char>::empty());
        }
        return None;
    }
    if stop {
        proof {
            lemma_digit_run_from(after, 0, count as int);
            assert(after.take(count as int) == after.subrange(0, count as int));
        }
        return Some(v);
    }
    if k == lcs.len() {
        proof {
            assert(after.len() == count);
            lemma_digit_run_from(after, 0, count as int);
            assert(after.take(count as int) == after.subrange(0, count as int));
        }
        return Some(v);
    }
    // count == 38 with more text: a digit there makes the run too long.
    let c = lcs[k];
    let cu = c as u32;
    proof {
        assert(after[count as int] == log@[k as int]);
    }
    if 48 <= cu && cu <= 57 {
        proof {
            lemma_digit_run_at_least(after, count as int + 1);
            lemma_digit_run_within(after, 0);
        }
        return None;
    }
    proof {
        lemma_digit_run_from(after, 0, count as int);
        assert(after.take(count as int) == after.subrange(0, count as int));
    }
    Some(v)
}

/// The digit-run scan never leaves the sequence.
proof fn lemma_digit_run_within(s: Seq<char>, i: int)
    requires
        0 <= i <= s.len(),
    ensures
        i <= digit_run_len(s, i) <= s.len(),
    decreases s.len() - i,
{
    if i < s.len() && crate::ollama::is_digit(s[i]) {
        lemma_digit_run_within(s, i + 1);
    }
}

/// A prefix of digits makes the digit run at least that long.
proof fn lemma_digit_run_at_least(s: Seq<char>, c: int)
    requires
        0 <= c <= s.len(),
        forall|j: int| 0 <= j < c ==> crate::ollama::is_digit(#[trigger] s[j]),
    ensures
        digit_run_len(s, 0) >= c,
{
    lemma_digit_run_ge(s, 0, c);
}

/// The digit-run scan from `i` reaches at least `c`.
proof fn lemma_digit_run_ge(s: Seq<char>, i: int, c: int)
    requires
        0 <= i <= c <= s.len(),
        forall|j: int| i <= j < c ==> crate::ollama::is_digit(#[trigger] s[j]),
    ensures
        digit_run_len(s, i) >= c,
    decreases c - i,
{
    if i < c {
        lemma_digit_run_ge(s, i + 1, c);
    } else if i < s.len() {
        if crate::ollama::is_digit(s[i]) {
            lemma_digit_run_ge_self(s, i + 1);
        }
    }
}

/// The digit-run scan never goes backward.
proof fn lemma_digit_run_ge_self(s: Seq<char>, i: int)
    requires
        0 <= i,
    ensures
        digit_run_len(s, i) >= i,
    decreases s.len() - i,
{
    if i < s.len() && crate::ollama::is_digit(s[i]) {
        lemma_digit_run_ge_self(s, i + 1);
    }
}

/// Powers of ten up to the 37th stay small enough to take one more digit
/// in a 128-bit value.
proof fn lemma_pow10_small(n: nat)
    requires
        n <= 37,
    ensures
        crate::ollama::pow10(n) <= 10000000000000000000000000000000000000,
{
    reveal_with_fuel(crate::ollama::pow10, 39);
    lemma_pow10_mono_local(n, 37);
}

/// Ten to a power never shrinks as the power grows.
proof fn lemma_pow10_mono_local(a: nat, b: nat)
    requires
        a <= b,
    ensures
        crate::ollama::pow10(a) <= crate::ollama::pow10(b),
    decreases b,
{
    if a < b {
        lemma_pow10_mono_local(a, (b - 1) as nat);
    }
}

/// The digit-run scan from `i` stops at `c`.
proof fn lemma_digit_run_from(s: Seq<char>, i: int, c: int)
    requires
        0 <= i <= c <= s.len(),
        forall|j: int| i <= j < c ==> crate::ollama::is_digit(#[trigger] s[j]),
        c < s.len() ==> !crate::ollama::is_digit(s[c]),
    ensures
        digit_run_len(s, i) == c,
    decreases c - i,
{
    if i < c {
        lemma_digit_run_from(s, i + 1, c);
    }
}

/// The first occurrence of `n` in `h`.
fn find_first(h: &Vec<char>, n: &Vec<char>) -> (r: Option<usize>)
    ensures
        match r {
            Some(p) => first_occurrence(h@, n@, 0) == Some(p as int) && p + n@.len() <= h@.len(),
            None => first_occurrence(h@, n@, 0) is None,
        },
{
    let hl: usize = h.len();
    let nl: usize = n.len();
    if nl > hl {
        return None;
    }
    let last: usize = hl - nl;
    let mut i: usize = 0;
    while i <= last
        invariant
            hl == h@.len(),
            nl == n@.len(),
            nl <= hl,
            last == hl - nl,
            i <= last + 1,
            i <= hl,
            first_occurrence(h@, n@, 0) == first_occurrence(h@, n@, i as int),
        decreases last - i + 1,
    {
        let mut j: usize = 0;
        let mut matched = true;
        while j < nl && matched
            invariant
                hl == h@.len(),
                nl == n@.len(),
                i + nl <= hl,
                j <= nl,
                matched ==> forall|k: int| 0 <= k < j ==> h@[i + k] == n@[k],
                !matched ==> !substring_at(h@, n@, i as int),
            decreases nl - j + (if matched {
                1int
            } else {
                0int
            }),
        {
            if h[i + j] != n[j] {
                proof {
                    assert(h@.subrange(i as int, i + n@.len())[j as int] != n@[j as int]);
                }
                matched = false;
            } else {
                j += 1;
            }
        }
        if matched {
            proof {
                assert(h@.subrange(i as int, i + n@.len()) =~= n@);
                assert(substring_at(h@, n@, i as int));
            }
            return Some(i);
        }
        if i == last {
            proof {
                assert(first_occurrence(h@, n@, i + 1) is None);
            }
            return None;
        }
        i += 1;
    }
    None
}

} // verus!
