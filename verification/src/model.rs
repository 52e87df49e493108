//! Plain data carried between the engine, the orchestrator and storage.

use vstd::prelude::*;
use crate::category::CategoryKey;
use crate::category::str_eq;
use crate::scores::Scores;

verus! {

/// What one classification produced, whichever strategy ran it.
#[derive(Clone, Debug)]
pub struct ClassificationOutput {
    pub model: String,
    pub scores: Scores,
    pub category: CategoryKey,
    pub tags: Vec<String>,
    pub caption: Option<String>,
    pub text_in_image: Option<String>,
    pub analysis_log: String,
    pub is_valuable: Option<bool>,
    pub valuable_score: Option<u64>,
}

/// The document a remote model answers with.
#[derive(Clone, Debug)]
pub struct ModelOut {
    pub category: CategoryKey,
    pub scores: Scores,
    pub tags_ko: Vec<String>,
    pub caption_ko: String,
    pub text_in_image_ko: String,
}

/// Whether a photo's export copy has happened yet, and how it went.
#[derive(Clone, Copy, Debug, PartialEq, Eq, Structural)]
pub enum ExportStatus {
    Pending,
    Success,
    Error,
}

/// The storage spelling of an export status.
pub open spec fn spec_export_status_str(s: ExportStatus) -> Seq<char> {
    match s {
        ExportStatus::Pending => "pending"@,
        ExportStatus::Success => "success"@,
        ExportStatus::Error => "error"@,
    }
}

/// The status a storage spelling decodes to: unknown text counts as `Error`.
pub open spec fn spec_export_status_of_str(s: Seq<char>) -> ExportStatus {
    if s == spec_export_status_str(ExportStatus::Success) {
        ExportStatus::Success
    } else if s == spec_export_status_str(ExportStatus::Pending) {
        ExportStatus::Pending
    } else {
        ExportStatus::Error
    }
}

/// Writes an export status the way storage rows spell it.
pub fn export_status_to_str(status: &ExportStatus) -> (r: &'static str)
    ensures
        r@ == spec_export_status_str(*status),
{
    match status {
        ExportStatus::Pending => "pending",
        ExportStatus::Success => "success",
        ExportStatus::Error => "error",
    }
}

/// Reads an export status back from its storage spelling; unknown text is
/// treated as a failed export.
pub fn str_to_export_status(raw: &str) -> (r: ExportStatus)
    ensures
        r == spec_export_status_of_str(raw@),
{
    if str_eq(raw, "success") {
        ExportStatus::Success
    } else if str_eq(raw, "pending") {
        ExportStatus::Pending
    } else {
        ExportStatus::Error
    }
}

/// Round trip: every export status survives its storage spelling.
pub proof fn lemma_export_status_round_trip(s: ExportStatus)
    ensures
        spec_export_status_of_str(spec_export_status_str(s)) == s,
{
    reveal_strlit("pending");
    reveal_strlit("success");
    reveal_strlit("error");
    assert("pending"@.len() == 7);
    assert("success"@.len() == 7);
    assert("error"@.len() == 5);
    assert("pending"@[0] == 'p');
    assert("success"@[0] == 's');
}

/// One stored result row, as listings return it.
#[derive(Clone, Debug)]
pub struct PhotoRow {
    pub id: String,
    pub file_name: String,
    pub path: String,
    pub category: CategoryKey,
    pub top_score: u64,
    pub scores: Scores,
    pub tags: Vec<String>,
    pub export_status: ExportStatus,
    pub error_message: Option<String>,
    pub analysis_duration_ms: Option<i64>,
    pub model: Option<String>,
    pub is_valuable: Option<bool>,
    pub valuable_score: Option<u64>,
}

/// One stored result row with its full diagnostics.
#[derive(Clone, Debug)]
pub struct PhotoDetail {
    pub id: String,
    pub file_name: String,
    pub path: String,
    pub category: CategoryKey,
    pub top_score: u64,
    pub scores: Scores,
    pub tags: Vec<String>,
    pub export_status: ExportStatus,
    pub error_message: Option<String>,
    pub analysis_log: Option<String>,
    pub analysis_duration_ms: Option<i64>,
    pub caption: Option<String>,
    pub text_in_image: Option<String>,
    pub model: Option<String>,
    pub is_valuable: Option<bool>,
    pub valuable_score: Option<u64>,
}

/// How many stored rows fall into each value-judgment bucket.
#[derive(Clone, Copy, Debug, PartialEq, Eq, Structural)]
pub struct ValueStats {
    pub valuable: usize,
    pub not_valuable: usize,
    pub unknown: usize,
}

/// An image encoded for transport to the remote strategy.
#[derive(Clone, Debug)]
pub struct EncodedImage {
    pub base64_jpeg: String,
}

/// One incremental message of the remote streaming path.
#[derive(Clone, Debug)]
pub struct StreamChunk {
    pub job_id: String,
    pub file_name: String,
    pub delta: String,
    pub done: bool,
    pub reset: bool,
}

/// How a category distribution is aggregated.
#[derive(Clone, Copy, Debug, PartialEq, Eq, Structural)]
pub enum DistributionMode {
    AvgScore,
    CountRatio,
}

/// Capability of one execution backend on this machine.
#[derive(Clone, Debug)]
pub struct ClipProviderCapability {
    pub supported: bool,
    pub available: bool,
    pub name: String,
}

/// Capability of every execution backend the engine knows.
#[derive(Clone, Debug)]
pub struct ClipAccelCapabilities {
    pub cpu: ClipProviderCapability,
    pub coreml: ClipProviderCapability,
    pub cuda: ClipProviderCapability,
    pub rocm: ClipProviderCapability,
    pub directml: ClipProviderCapability,
    pub openvino: ClipProviderCapability,
}

/// What a caller hands over to start a batch job.
#[derive(Clone, Debug)]
pub struct StartAnalysisInput {
    pub source_root: String,
    pub export_root: String,
}

/// What starting a batch job hands back.
#[derive(Clone, Debug)]
pub struct StartAnalysisResult {
    pub job_id: String,
}

} // verus!
