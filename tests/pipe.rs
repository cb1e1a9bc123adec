use flvpipe::convert::row_to_json;
use flvpipe::pipe::{
    batch_all, progress_due, ErrorPolicy, PipeAction, PipeEvent, PipeState, RecordBudget, SourceError, StreamPipe,
};
use flvpipe::value::Value;

fn recs(n: u8) -> Vec<Vec<u8>> {
    (1..=n).map(|i| vec![i]).collect()
}

#[test]
fn batches_of_two_over_five_records() {
    let out = batch_all(recs(5), 2);
    assert_eq!(out, vec![vec![vec![1], vec![2]], vec![vec![3], vec![4]], vec![vec![5]]]);
}

#[test]
fn batches_when_threshold_divides_count() {
    let out = batch_all(recs(4), 2);
    assert_eq!(out, vec![vec![vec![1], vec![2]], vec![vec![3], vec![4]]]);
    assert_eq!(batch_all(vec![], 3), Vec::<Vec<Vec<u8>>>::new());
    assert_eq!(batch_all(recs(3), 1).len(), 3);
}

#[test]
fn pipe_hands_out_full_batches_and_drains() {
    let mut p = StreamPipe::new(3);
    assert_eq!(p.push(vec![1, 2]), None);
    assert_eq!(p.push(vec![3]), None);
    assert_eq!(p.batch_bytes(), 3);
    assert_eq!(p.push(vec![4]), Some(vec![vec![1, 2], vec![3], vec![4]]));
    assert_eq!(p.batch_bytes(), 0);
    assert_eq!(p.push(vec![5]), None);
    assert_eq!(p.count(), 4);
    assert_eq!(p.drain(), Some(vec![vec![5]]));
    assert_eq!(p.state(), PipeState::Done);
    assert_eq!(p.threshold(), 3);
}

#[test]
fn pipe_fail_drops_batch() {
    let mut p = StreamPipe::new(2);
    assert_eq!(p.push(vec![1]), None);
    p.fail();
    assert_eq!(p.state(), PipeState::Failed);
    assert_eq!(p.batch_bytes(), 0);
}

#[test]
fn progress_every_five_thousand() {
    assert!(!progress_due(0));
    assert!(!progress_due(4_999));
    assert!(progress_due(5_000));
    assert!(progress_due(10_000));
}

#[test]
fn three_rows_end_to_end() {
    let rows = vec![
        vec![("id".to_string(), Value::Int32(1)), ("ts".to_string(), Value::TimestampMillis(999))],
        vec![("id".to_string(), Value::Int32(2)), ("ts".to_string(), Value::TimestampMillis(86_399_999))],
        vec![("id".to_string(), Value::Int32(3)), ("ts".to_string(), Value::TimestampMillis(86_400_000))],
    ];
    let mut p = StreamPipe::new(2);
    let mut sent: Vec<Vec<u8>> = Vec::new();
    for row in rows.iter() {
        let j = row_to_json(row).expect("row converts");
        if let Some(batch) = p.push(format!("{:?}", j).into_bytes()) {
            sent.extend(batch);
        }
    }
    if let Some(batch) = p.drain() {
        sent.extend(batch);
    }
    assert_eq!(p.count(), 3);
    assert_eq!(sent.len(), 3);
    let lines: Vec<String> = sent.into_iter().map(|b| String::from_utf8(b).unwrap()).collect();
    assert!(lines[0].contains("Int(1)") && lines[0].contains("1970-01-01 00:00:00.999 UTC"));
    assert!(lines[1].contains("Int(2)") && lines[1].contains("1970-01-01 23:59:59.999 UTC"));
    assert!(lines[2].contains("Int(3)") && lines[2].contains("1970-01-02 00:00:00 UTC"));
}

#[test]
fn skip_policy_counts_and_keeps_batch() {
    let mut p = StreamPipe::new(2);
    assert_eq!(p.push(vec![1]), None);
    p.record_failed(ErrorPolicy::Skip);
    assert_eq!(p.skipped(), 1);
    assert_eq!(p.state(), PipeState::Running);
    assert_eq!(p.push(vec![2]), Some(vec![vec![1], vec![2]]));
    assert_eq!(p.count(), 2);
}

#[test]
fn abort_policy_fails_run() {
    let mut p = StreamPipe::new(2);
    assert_eq!(p.push(vec![1]), None);
    p.record_failed(ErrorPolicy::Abort);
    assert_eq!(p.state(), PipeState::Failed);
    assert_eq!(p.skipped(), 0);
    assert_eq!(p.drain(), None);
}

#[test]
fn record_budget_counts_down() {
    let mut b = RecordBudget::new(Some(2));
    assert!(b.take());
    assert!(b.take());
    assert!(!b.take());
    assert!(!b.take());
    let mut unlimited = RecordBudget::new(None);
    for _ in 0..10 {
        assert!(unlimited.take());
    }
    let mut none = RecordBudget::new(Some(0));
    assert!(!none.take());
}

#[test]
fn step_runs_the_state_machine() {
    let mut p = StreamPipe::new(2);
    assert_eq!(p.step(PipeEvent::Record(vec![1]), ErrorPolicy::Skip), PipeAction::Pull);
    assert_eq!(p.step(PipeEvent::BadRecord, ErrorPolicy::Skip), PipeAction::Pull);
    assert_eq!(p.step(PipeEvent::Record(vec![2]), ErrorPolicy::Skip), PipeAction::Deliver(vec![vec![1], vec![2]]));
    assert_eq!(p.step(PipeEvent::Record(vec![3]), ErrorPolicy::Skip), PipeAction::Pull);
    assert_eq!(p.step(PipeEvent::End, ErrorPolicy::Skip), PipeAction::Finish(Some(vec![vec![3]])));
    assert_eq!(p.state(), PipeState::Done);
    assert_eq!((p.count(), p.skipped()), (3, 1));
}

#[test]
fn step_end_with_empty_batch_finishes_without_one() {
    let mut p = StreamPipe::new(1);
    assert_eq!(p.step(PipeEvent::Record(vec![1]), ErrorPolicy::Abort), PipeAction::Deliver(vec![vec![1]]));
    assert_eq!(p.step(PipeEvent::End, ErrorPolicy::Abort), PipeAction::Finish(None));
}

#[test]
fn step_aborts_on_failures() {
    let mut p = StreamPipe::new(3);
    assert_eq!(p.step(PipeEvent::Record(vec![1]), ErrorPolicy::Abort), PipeAction::Pull);
    assert_eq!(p.step(PipeEvent::BadRecord, ErrorPolicy::Abort), PipeAction::Abort);
    assert_eq!(p.state(), PipeState::Failed);
    let mut q = StreamPipe::new(3);
    assert_eq!(q.step(PipeEvent::SourceFailed(SourceError::Transport), ErrorPolicy::Skip), PipeAction::Abort);
    assert_eq!(q.state(), PipeState::Failed);
}

#[test]
fn stop_ends_the_run_like_end() {
    let mut p = StreamPipe::new(4);
    assert_eq!(p.step(PipeEvent::Record(vec![9]), ErrorPolicy::Abort), PipeAction::Pull);
    assert_eq!(p.step(PipeEvent::Stop, ErrorPolicy::Abort), PipeAction::Finish(Some(vec![vec![9]])));
    assert_eq!(p.state(), PipeState::Done);
}
