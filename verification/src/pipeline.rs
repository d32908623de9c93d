use vstd::prelude::*;

use crate::descriptor::ProblemDescriptor;
use crate::envelope::{spec_ser_envelope, Envelope, WeightRangeEnc};

verus! {

/// The failure surface of one invocation, kept apart so a caller can tell
/// a fixable request from an internal fault: the input failed to decode
/// (with the offending field), the native computation aborted and its
/// detail was lost at the isolation boundary, or the task was cancelled
/// before it delivered. The cancelled outcome is the settlement the task
/// lifecycle produces when the abort signal wins; the host runtime
/// reports it on the handle rather than through the pipeline.
pub enum BridgeError {
    MalformedInput(crate::descriptor::DecodeError),
    InternalFailure,
    Cancelled,
}

/// Where one invocation stands on the worker thread. The phases are
/// strictly ordered: recorder setup, then the solver invocation, then
/// artifact extraction, then assembly of the envelope.
#[derive(PartialEq, Eq, Structural, Clone, Copy, Debug)]
pub enum PipelinePhase {
    Decoded,
    RecorderReady,
    Invoked,
    Extracted,
    Assembled,
}

/// The stages the worker performs, one per phase transition.
#[derive(PartialEq, Eq, Structural, Clone, Copy, Debug)]
pub enum PipelineStage {
    SetUpRecorder,
    InvokeSolver,
    ExtractArtifacts,
    AssembleEnvelope,
}

/// The one phase a stage may run in, and the phase it leads to; any other
/// pairing is refused. Each stage is enabled in exactly one phase, so
/// along any run the recorder setup strictly precedes the invocation,
/// which strictly precedes extraction, which strictly precedes assembly,
/// and no stage runs twice.
pub open spec fn spec_pipeline_advance(p: PipelinePhase, s: PipelineStage) -> Option<
    PipelinePhase,
> {
    match (p, s) {
        (PipelinePhase::Decoded, PipelineStage::SetUpRecorder) => Some(PipelinePhase::RecorderReady),
        (PipelinePhase::RecorderReady, PipelineStage::InvokeSolver) => Some(PipelinePhase::Invoked),
        (PipelinePhase::Invoked, PipelineStage::ExtractArtifacts) => Some(PipelinePhase::Extracted),
        (PipelinePhase::Extracted, PipelineStage::AssembleEnvelope) => Some(
            PipelinePhase::Assembled,
        ),
        _ => None,
    }
}

/// Advance the invocation by one stage; refused out of order.
pub fn pipeline_advance(p: PipelinePhase, s: PipelineStage) -> (r: Option<PipelinePhase>)
    ensures
        r == spec_pipeline_advance(p, s),
{
    match (p, s) {
        (PipelinePhase::Decoded, PipelineStage::SetUpRecorder) => Some(PipelinePhase::RecorderReady),
        (PipelinePhase::RecorderReady, PipelineStage::InvokeSolver) => Some(PipelinePhase::Invoked),
        (PipelinePhase::Invoked, PipelineStage::ExtractArtifacts) => Some(PipelinePhase::Extracted),
        (PipelinePhase::Extracted, PipelineStage::AssembleEnvelope) => Some(
            PipelinePhase::Assembled,
        ),
        _ => None,
    }
}

/// The ordering guarantee, spelled out: the solver can be invoked only
/// once the recorder phase is done, artifacts can be extracted only once
/// the solver was invoked, and the envelope can be assembled only once
/// the artifacts were extracted.
pub proof fn lemma_pipeline_order(p: PipelinePhase)
    ensures
        spec_pipeline_advance(p, PipelineStage::SetUpRecorder) is Some <==> p
            == PipelinePhase::Decoded,
        spec_pipeline_advance(p, PipelineStage::InvokeSolver) is Some <==> p
            == PipelinePhase::RecorderReady,
        spec_pipeline_advance(p, PipelineStage::ExtractArtifacts) is Some <==> p
            == PipelinePhase::Invoked,
        spec_pipeline_advance(p, PipelineStage::AssembleEnvelope) is Some <==> p
            == PipelinePhase::Extracted,
{
}

/// What the host runtime must prepare before invoking the solver: a
/// recorder is set up exactly when some artifact was requested, and it is
/// set up before the invocation, never after.
pub struct InvocationPlan {
    pub needs_recorder: bool,
    pub with_json: bool,
    pub with_html: bool,
}

/// Decide the invocation's shape from the decoded problem: the recorder
/// exists exactly when the trace or the page was requested, so an
/// unobserved run carries no recorder overhead.
pub fn plan_invocation(p: &ProblemDescriptor) -> (r: InvocationPlan)
    ensures
        r.needs_recorder == (p.with_json || p.with_html),
        r.with_json == p.with_json,
        r.with_html == p.with_html,
{
    InvocationPlan {
        needs_recorder: p.with_json || p.with_html,
        with_json: p.with_json,
        with_html: p.with_html,
    }
}

/// Build the output envelope from the solver's results: the artifacts are
/// present exactly when they were requested, and the subgraph and weight
/// bound are carried verbatim. Verified for every value the solver hands
/// back.
pub fn assemble_envelope(
    with_json: bool,
    with_html: bool,
    json_doc: Option<Vec<u8>>,
    html: Option<Vec<u8>>,
    subgraph: Vec<u64>,
    weight_range: WeightRangeEnc,
) -> (e: Envelope)
    requires
        json_doc is Some <==> with_json,
        html is Some <==> with_html,
    ensures
        e.json_doc is Some <==> with_json,
        e.html is Some <==> with_html,
        e.json_doc == json_doc,
        e.html == html,
        e.subgraph == subgraph,
        e.weight_range == weight_range,
{
    Envelope { json_doc, html, subgraph, weight_range }
}

/// Assemble and render in one step: the transport text of the envelope
/// whose artifacts are present exactly as requested and whose payload is
/// carried verbatim.
pub fn complete_envelope(
    with_json: bool,
    with_html: bool,
    json_doc: Option<Vec<u8>>,
    html: Option<Vec<u8>>,
    subgraph: Vec<u64>,
    weight_range: WeightRangeEnc,
) -> (out: Vec<u8>)
    requires
        json_doc is Some <==> with_json,
        html is Some <==> with_html,
    ensures
        out@ == spec_ser_envelope(
            Envelope { json_doc, html, subgraph, weight_range },
        ),
{
    let e = assemble_envelope(with_json, with_html, json_doc, html, subgraph, weight_range);
    e.serialize()
}

} // verus!
