use std::sync::Arc;

use kafkamitter::kafka::consume::{
    cached_high_watermark, newest_start, plan_assignment, start_at_time, AssignmentPlan, Batch, ConsumeEvent,
    ConsumeLoop, LoopAction, LoopEvent, PartitionPosition, Phase, StartFrom, StartOffset, BATCH_MAX_AGE,
    BATCH_MAX_MESSAGES,
};
use kafkamitter::model::message::MessageRecord;

fn message(partition: i32, offset: i64) -> MessageRecord {
    MessageRecord::new(Arc::new("t".to_string()), partition, offset, None, Some(b"k"), Some(b"value"), &[])
}

#[test]
fn a_plan_goes_by_where_reading_starts() {
    assert_eq!(plan_assignment(StartFrom::Newest(20), &[0, 1]), AssignmentPlan::NeedsWatermarks(20));
    assert_eq!(plan_assignment(StartFrom::Newest(-5), &[0]), AssignmentPlan::NeedsWatermarks(0));
    assert_eq!(
        plan_assignment(StartFrom::Latest, &[0, 1]),
        AssignmentPlan::Ready(vec![(0, StartOffset::End), (1, StartOffset::End)])
    );
    assert_eq!(
        plan_assignment(StartFrom::Beginning, &[3]),
        AssignmentPlan::Ready(vec![(3, StartOffset::Beginning)])
    );
    assert_eq!(
        plan_assignment(StartFrom::Offset(-1), &[3]),
        AssignmentPlan::Ready(vec![(3, StartOffset::At(0))])
    );
    assert_eq!(
        plan_assignment(StartFrom::Timestamp(99), &[1, 2]),
        AssignmentPlan::NeedsTimes(vec![(1, 99), (2, 99)])
    );
}

#[test]
fn the_newest_messages_start_before_the_end() {
    assert_eq!(newest_start(0, 100, 20), StartOffset::At(80));
    assert_eq!(newest_start(95, 100, 20), StartOffset::At(95));
    assert_eq!(newest_start(5, 5, 20), StartOffset::At(5));
    assert_eq!(start_at_time(Some(7)), StartOffset::At(7));
    assert_eq!(start_at_time(None), StartOffset::End);
}

#[test]
fn a_watermark_counts_only_where_it_is_known() {
    assert_eq!(cached_high_watermark(true, 10), Some(10));
    assert_eq!(cached_high_watermark(true, -1001), None);
    assert_eq!(cached_high_watermark(false, 10), None);
}

#[test]
fn a_batch_notes_the_place_of_each_partition() {
    let mut batch = Batch::new();
    batch.push(message(0, 5));
    batch.push(message(2, 9));
    batch.push(message(0, 6));
    assert_eq!(batch.bytes, 3 * 6);
    assert_eq!(batch.partitions(), vec![0, 2]);
    batch.set_highs(&vec![Some(50), None]);
    assert_eq!(
        batch.positions,
        vec![
            PartitionPosition { partition: 0, first: 5, last: 6, high: 50 },
            PartitionPosition { partition: 2, first: 9, last: 9, high: -1 },
        ]
    );
}

fn polling(topic: &str, partitions: Vec<i32>) -> ConsumeLoop {
    let (mut session, _) = ConsumeLoop::new(topic.to_string(), partitions);
    assert!(matches!(session.step(LoopEvent::Created), LoopAction::Plan));
    assert!(matches!(session.step(LoopEvent::Planned), LoopAction::Assign));
    assert!(matches!(session.step(LoopEvent::Assigned), LoopAction::Send(ConsumeEvent::Assigned(_))));
    assert!(matches!(session.step(LoopEvent::Sent), LoopAction::Poll(100)));
    session
}

#[test]
fn a_session_without_partitions_finds_them() {
    let (mut session, first) = ConsumeLoop::new("orders".to_string(), vec![]);
    assert!(matches!(first, LoopAction::Create));
    assert!(matches!(session.step(LoopEvent::Created), LoopAction::FindTopic));
    assert!(matches!(session.step(LoopEvent::TopicFound(vec![4, 5])), LoopAction::Plan));
    assert!(matches!(session.step(LoopEvent::Planned), LoopAction::Assign));
    match session.step(LoopEvent::Assigned) {
        LoopAction::Send(ConsumeEvent::Assigned(partitions)) => assert_eq!(partitions, vec![4, 5]),
        _ => panic!("the partitions are told"),
    }
}

fn error_of(action: LoopAction) -> String {
    match action {
        LoopAction::Send(ConsumeEvent::Error(message)) => message,
        _ => panic!("an error is told"),
    }
}

#[test]
fn a_session_that_cannot_start_says_why() {
    let fresh = || ConsumeLoop::new("orders".to_string(), vec![]).0;
    let mut session = fresh();
    assert_eq!(error_of(session.step(LoopEvent::Failed("x".into()))), "consumer: x");
    assert!(matches!(session.step(LoopEvent::Sent), LoopAction::Finish));
    let mut session = fresh();
    session.step(LoopEvent::Created);
    assert_eq!(error_of(session.step(LoopEvent::TopicMissing)), "topic orders not found");
    let mut session = fresh();
    session.step(LoopEvent::Created);
    assert_eq!(error_of(session.step(LoopEvent::Failed("y".into()))), "metadata: y");
    let mut session = fresh();
    session.step(LoopEvent::Created);
    session.step(LoopEvent::TopicFound(vec![0]));
    assert_eq!(error_of(session.step(LoopEvent::Failed("z".into()))), "offsets: z");
    let mut session = fresh();
    session.step(LoopEvent::Created);
    session.step(LoopEvent::TopicFound(vec![0]));
    session.step(LoopEvent::Planned);
    assert_eq!(error_of(session.step(LoopEvent::Failed("w".into()))), "assign: w");
}

#[test]
fn a_name_with_a_nul_is_refused() {
    let (mut session, _) = ConsumeLoop::new("a\0b".to_string(), vec![0]);
    session.step(LoopEvent::Created);
    session.step(LoopEvent::Planned);
    session.step(LoopEvent::Assigned);
    assert_eq!(error_of(session.step(LoopEvent::Sent)), "topic name a\0b holds a NUL byte");
}

#[test]
fn messages_are_handed_over_before_the_end_of_a_partition() {
    let mut session = polling("t", vec![0]);
    assert!(matches!(session.step(LoopEvent::Message(message(0, 1), 0)), LoopAction::Poll(5)));
    match session.step(LoopEvent::Eof(0)) {
        LoopAction::ReadHighs(partitions) => assert_eq!(partitions, vec![0]),
        _ => panic!("the batch goes first"),
    }
    match session.step(LoopEvent::Highs(vec![Some(2)])) {
        LoopAction::Send(ConsumeEvent::Batch(batch)) => {
            assert_eq!(batch.records.len(), 1);
            assert_eq!(batch.positions[0].high, 2);
        }
        _ => panic!("the batch is handed over"),
    }
    assert!(matches!(session.step(LoopEvent::Sent), LoopAction::Send(ConsumeEvent::Eof(0))));
    assert!(matches!(session.step(LoopEvent::Sent), LoopAction::Poll(100)));
}

#[test]
fn a_full_or_old_batch_is_handed_over() {
    let mut session = polling("t", vec![0]);
    for offset in 0..(BATCH_MAX_MESSAGES as i64 - 1) {
        assert!(matches!(session.step(LoopEvent::Message(message(0, offset), 0)), LoopAction::Poll(5)));
    }
    assert!(matches!(session.step(LoopEvent::Message(message(0, 999), 0)), LoopAction::ReadHighs(_)));
    let mut session = polling("t", vec![0]);
    session.step(LoopEvent::Message(message(0, 0), 1_000));
    assert!(matches!(
        session.step(LoopEvent::Message(message(0, 1), 1_000 + BATCH_MAX_AGE)),
        LoopAction::ReadHighs(_)
    ));
}

#[test]
fn an_error_is_told_and_reading_goes_on() {
    let mut session = polling("t", vec![0]);
    assert_eq!(error_of(session.step(LoopEvent::PollError("broker down".into()))), "broker down");
    assert!(matches!(session.step(LoopEvent::Sent), LoopAction::Poll(100)));
    assert!(matches!(session.step(LoopEvent::Nothing), LoopAction::Poll(100)));
}

#[test]
fn a_session_ends_when_it_is_stopped_or_nobody_listens() {
    let mut session = polling("t", vec![0]);
    assert!(matches!(session.step(LoopEvent::StopRequested), LoopAction::Unassign));
    assert_eq!(session.phase, Phase::Done);
    let mut session = polling("t", vec![0]);
    session.step(LoopEvent::Eof(0));
    assert!(matches!(session.step(LoopEvent::Closed), LoopAction::Unassign));
    let (mut session, _) = ConsumeLoop::new("t".to_string(), vec![0]);
    session.step(LoopEvent::Created);
    session.step(LoopEvent::Planned);
    session.step(LoopEvent::Assigned);
    assert!(matches!(session.step(LoopEvent::Closed), LoopAction::Finish));
}
