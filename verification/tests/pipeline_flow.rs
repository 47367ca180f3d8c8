use audiora::pipeline::{Phase, PipelineEvent, step};
use audiora::text::is_blank;

#[test]
fn blank_document_goes_straight_to_done() {
    let text = "";
    let p = step(Phase::Idle, PipelineEvent::TextReady { blank: is_blank(text) });
    assert_eq!(p, Phase::Done);
}

#[test]
fn full_run_reaches_done() {
    let mut p = Phase::Idle;
    p = step(p, PipelineEvent::TextReady { blank: false });
    assert_eq!(p, Phase::Segmenting);
    p = step(p, PipelineEvent::ChunksPlanned { count: 2 });
    assert_eq!(p, Phase::Running);
    p = step(p, PipelineEvent::SynthesisFinished);
    assert_eq!(p, Phase::Draining);
    p = step(p, PipelineEvent::QueueDrained);
    assert_eq!(p, Phase::Done);
}

#[test]
fn extraction_failure_fails_the_run() {
    assert_eq!(step(Phase::Idle, PipelineEvent::ExtractionFailed), Phase::Failed);
}

#[test]
fn device_failure_fails_the_run_before_audio() {
    assert_eq!(step(Phase::Idle, PipelineEvent::DeviceFailed), Phase::Failed);
    assert_eq!(step(Phase::Segmenting, PipelineEvent::DeviceFailed), Phase::Failed);
}

#[test]
fn zero_chunks_finish_without_audio() {
    assert_eq!(step(Phase::Segmenting, PipelineEvent::ChunksPlanned { count: 0 }), Phase::Done);
}

#[test]
fn terminal_phases_absorb_every_event() {
    assert_eq!(step(Phase::Done, PipelineEvent::ExtractionFailed), Phase::Done);
    assert_eq!(step(Phase::Done, PipelineEvent::TextReady { blank: false }), Phase::Done);
    assert_eq!(step(Phase::Failed, PipelineEvent::QueueDrained), Phase::Failed);
}

#[test]
fn mismatched_events_change_nothing() {
    assert_eq!(step(Phase::Running, PipelineEvent::QueueDrained), Phase::Running);
    assert_eq!(step(Phase::Draining, PipelineEvent::SynthesisFinished), Phase::Draining);
}
