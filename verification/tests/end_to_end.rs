use audiora::chunk::plan_chunks;
use audiora::order::{replay_arrivals, SynthesisOutcome};
use audiora::pipeline::{step, Phase, PipelineEvent};
use audiora::queue::{AudioUnit, DeliveryQueue};

#[test]
fn example_document_plays_two_units_in_order() {
    let chunks = plan_chunks("Hello world. This is Audiora!", 100).unwrap();
    assert_eq!(chunks.len(), 2);

    // Synthesis completes out of order; playback must not.
    let mut arrivals: Vec<SynthesisOutcome> = Vec::new();
    for c in chunks.iter().rev() {
        arrivals.push(SynthesisOutcome::Ready(AudioUnit {
            index: c.index,
            data: c.text.clone().into_bytes(),
        }));
    }
    let played = replay_arrivals(arrivals, 0);
    assert_eq!(played.len(), 2);
    assert_eq!(played[0].index, 0);
    assert_eq!(played[0].data, b"Hello world.".to_vec());
    assert_eq!(played[1].index, 1);
    assert_eq!(played[1].data, b"This is Audiora!".to_vec());

    // The whole run reaches its final state through the delivery queue.
    let mut phase = Phase::Idle;
    phase = step(phase, PipelineEvent::TextReady { blank: false });
    phase = step(phase, PipelineEvent::ChunksPlanned { count: 2 });
    let mut q = DeliveryQueue::new(100);
    for unit in played {
        assert!(q.try_push(unit));
    }
    q.close();
    phase = step(phase, PipelineEvent::SynthesisFinished);
    let mut order_check: usize = 0;
    while let Some(unit) = q.pop() {
        assert_eq!(unit.index, order_check);
        order_check += 1;
    }
    phase = step(phase, PipelineEvent::QueueDrained);
    assert_eq!(phase, Phase::Done);
}

#[test]
fn failure_at_one_chunk_still_finishes() {
    let chunks = plan_chunks("One. Two. Three. Four.", 100).unwrap();
    assert_eq!(chunks.len(), 4);
    let failed_at: usize = 2;
    let mut arrivals: Vec<SynthesisOutcome> = Vec::new();
    for c in chunks.iter().rev() {
        if c.index == failed_at {
            arrivals.push(SynthesisOutcome::Failed(c.index));
        } else {
            arrivals.push(SynthesisOutcome::Ready(AudioUnit {
                index: c.index,
                data: c.text.clone().into_bytes(),
            }));
        }
    }
    let played = replay_arrivals(arrivals, 0);
    let indices: Vec<usize> = played.iter().map(|u| u.index).collect();
    assert_eq!(indices, vec![0, 1, 3]);

    let mut phase = Phase::Running;
    phase = step(phase, PipelineEvent::SynthesisFinished);
    phase = step(phase, PipelineEvent::QueueDrained);
    assert_eq!(phase, Phase::Done);
}
