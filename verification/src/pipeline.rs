//! The pipeline's life cycle as a state machine: the run moves from idle
//! through segmentation into concurrent synthesis and playback, drains the
//! queue once the last chunk is synthesized, and ends done — or failed, if
//! text extraction or the audio device broke before any audio was produced.

use vstd::prelude::*;

verus! {

/// The phase a pipeline run is in.
#[derive(PartialEq, Eq, Structural, Clone, Copy, Debug)]
pub enum Phase {
    /// Created, no text received yet.
    Idle,
    /// Splitting the extracted text into sentences and chunks.
    Segmenting,
    /// Synthesis and playback running concurrently.
    Running,
    /// Synthesis finished and closed the queue; playback drains the rest.
    Draining,
    /// Every queued unit was played or skipped; the run is over.
    Done,
    /// Text extraction or the audio device failed before any audio.
    Failed,
}

/// What happened to the run, as reported by the stages around it.
#[derive(PartialEq, Eq, Structural, Clone, Copy, Debug)]
pub enum PipelineEvent {
    /// Text extraction delivered a document; `blank` says whether it held
    /// nothing but whitespace.
    TextReady { blank: bool },
    /// Text extraction failed: no document, no audio.
    ExtractionFailed,
    /// The output audio device could not be acquired.
    DeviceFailed,
    /// Chunk planning finished with this many chunks.
    ChunksPlanned { count: usize },
    /// The synthesis stage processed the last chunk and closed the queue.
    SynthesisFinished,
    /// The playback stage consumed and played (or skipped) every queued
    /// unit.
    QueueDrained,
}

/// Whether a phase is final: a finished run never moves again.
pub open spec fn is_terminal(p: Phase) -> bool {
    p == Phase::Done || p == Phase::Failed
}

/// The transition relation of the pipeline: a blank document goes straight
/// to done with no audio produced; a fatal failure before audio goes to
/// failed; otherwise the run advances one stage per event. An event that
/// does not belong to the current phase changes nothing.
pub open spec fn spec_step(p: Phase, e: PipelineEvent) -> Phase {
    match (p, e) {
        (Phase::Idle, PipelineEvent::TextReady { blank }) => if blank {
            Phase::Done
        } else {
            Phase::Segmenting
        },
        (Phase::Idle, PipelineEvent::ExtractionFailed) => Phase::Failed,
        (Phase::Idle, PipelineEvent::DeviceFailed) => Phase::Failed,
        (Phase::Segmenting, PipelineEvent::DeviceFailed) => Phase::Failed,
        (Phase::Segmenting, PipelineEvent::ChunksPlanned { count }) => if count == 0 {
            Phase::Done
        } else {
            Phase::Running
        },
        (Phase::Running, PipelineEvent::SynthesisFinished) => Phase::Draining,
        (Phase::Draining, PipelineEvent::QueueDrained) => Phase::Done,
        (_, _) => p,
    }
}

/// Advances the pipeline by one event.
pub fn step(p: Phase, e: PipelineEvent) -> (next: Phase)
    ensures
        next == spec_step(p, e),
{
    match (p, e) {
        (Phase::Idle, PipelineEvent::TextReady { blank }) => if blank {
            Phase::Done
        } else {
            Phase::Segmenting
        },
        (Phase::Idle, PipelineEvent::ExtractionFailed) => Phase::Failed,
        (Phase::Idle, PipelineEvent::DeviceFailed) => Phase::Failed,
        (Phase::Segmenting, PipelineEvent::DeviceFailed) => Phase::Failed,
        (Phase::Segmenting, PipelineEvent::ChunksPlanned { count }) => if count == 0 {
            Phase::Done
        } else {
            Phase::Running
        },
        (Phase::Running, PipelineEvent::SynthesisFinished) => Phase::Draining,
        (Phase::Draining, PipelineEvent::QueueDrained) => Phase::Done,
        (_, _) => p,
    }
}

/// A finished run stays finished: no event moves a terminal phase.
pub proof fn lemma_terminal_absorbing(p: Phase, e: PipelineEvent)
    requires
        is_terminal(p),
    ensures
        spec_step(p, e) == p,
{
}

/// A run only ever fails before audio is produced: from the moment the
/// pipeline is running, no event leads to the failed phase.
pub proof fn lemma_no_late_failure(p: Phase, e: PipelineEvent)
    requires
        p == Phase::Running || p == Phase::Draining || p == Phase::Done,
    ensures
        spec_step(p, e) != Phase::Failed,
{
}

} // verus!
