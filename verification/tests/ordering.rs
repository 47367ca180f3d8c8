use audiora::order::{OrderingError, Reorderer, SynthesisOutcome, replay_arrivals};
use audiora::queue::{AudioUnit, DeliveryQueue};

fn ready(index: usize) -> SynthesisOutcome {
    SynthesisOutcome::Ready(AudioUnit { index, data: vec![index as u8] })
}

#[test]
fn out_of_order_arrivals_play_in_order() {
    let arrivals = vec![ready(2), ready(0), ready(3), ready(1), ready(4)];
    let played = replay_arrivals(arrivals, 0);
    let indices: Vec<usize> = played.iter().map(|u| u.index).collect();
    assert_eq!(indices, vec![0, 1, 2, 3, 4]);
    for u in &played {
        assert_eq!(u.data, vec![u.index as u8]);
    }
}

#[test]
fn failure_leaves_exactly_one_gap() {
    let arrivals = vec![ready(4), SynthesisOutcome::Failed(2), ready(0), ready(1), ready(3)];
    let played = replay_arrivals(arrivals, 0);
    let indices: Vec<usize> = played.iter().map(|u| u.index).collect();
    assert_eq!(indices, vec![0, 1, 3, 4]);
}

#[test]
fn replay_with_nonzero_start() {
    let arrivals = vec![ready(11), ready(10), SynthesisOutcome::Failed(12)];
    let played = replay_arrivals(arrivals, 10);
    let indices: Vec<usize> = played.iter().map(|u| u.index).collect();
    assert_eq!(indices, vec![10, 11]);
}

#[test]
fn accept_releases_in_order() {
    let mut r = Reorderer::new(0);
    let first = r.accept(ready(0)).unwrap();
    assert_eq!(first.len(), 1);
    assert_eq!(first[0].index, 0);
    let second = r.accept(ready(1)).unwrap();
    assert_eq!(second.len(), 1);
    assert_eq!(second[0].index, 1);
    assert_eq!(r.next_expected(), 2);
}

#[test]
fn accept_buffers_until_gap_closes() {
    let mut r = Reorderer::new(0);
    assert_eq!(r.accept(ready(1)).unwrap().len(), 0);
    assert_eq!(r.accept(ready(2)).unwrap().len(), 0);
    let run = r.accept(ready(0)).unwrap();
    let indices: Vec<usize> = run.iter().map(|u| u.index).collect();
    assert_eq!(indices, vec![0, 1, 2]);
    assert_eq!(r.next_expected(), 3);
}

#[test]
fn failed_outcomes_advance_past_the_gap() {
    let mut r = Reorderer::new(0);
    assert_eq!(r.accept(ready(2)).unwrap().len(), 0);
    assert_eq!(r.accept(SynthesisOutcome::Failed(0)).unwrap().len(), 0);
    let run = r.accept(ready(1)).unwrap();
    let indices: Vec<usize> = run.iter().map(|u| u.index).collect();
    assert_eq!(indices, vec![1, 2]);
    assert_eq!(r.next_expected(), 3);
}

#[test]
fn stale_outcome_is_rejected() {
    let mut r = Reorderer::new(0);
    assert_eq!(r.accept(ready(0)).unwrap().len(), 1);
    let e = r.accept(SynthesisOutcome::Failed(0)).unwrap_err();
    assert!(matches!(e, OrderingError::Stale));
    assert_eq!(r.next_expected(), 1);
}

#[test]
fn duplicate_outcome_is_rejected() {
    let mut r = Reorderer::new(0);
    assert_eq!(r.accept(ready(2)).unwrap().len(), 0);
    let e = r.accept(ready(2)).unwrap_err();
    assert!(matches!(e, OrderingError::Duplicate));
}

#[test]
fn full_queue_refuses_units_and_keeps_order() {
    let mut q = DeliveryQueue::new(2);
    assert!(q.try_push(AudioUnit { index: 0, data: vec![0] }));
    assert!(q.try_push(AudioUnit { index: 1, data: vec![1] }));
    assert!(!q.try_push(AudioUnit { index: 2, data: vec![2] }));
    assert_eq!(q.len(), 2);
    let first = q.pop().unwrap();
    assert_eq!(first.index, 0);
    assert!(q.try_push(AudioUnit { index: 2, data: vec![2] }));
    assert_eq!(q.pop().unwrap().index, 1);
    assert_eq!(q.pop().unwrap().index, 2);
    assert!(q.pop().is_none());
}

#[test]
fn closing_the_queue_signals_the_consumer() {
    let mut q = DeliveryQueue::new(3);
    assert!(!q.closed());
    assert!(q.try_push(AudioUnit { index: 0, data: vec![] }));
    q.close();
    assert!(q.closed());
    assert_eq!(q.pop().unwrap().index, 0);
    assert!(q.pop().is_none());
}
