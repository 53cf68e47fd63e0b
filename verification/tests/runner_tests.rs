use viddy::runner::{
    next_execution_id, next_sleep_ms, plan_tick, process_tick, tick_events, RunnerEvent,
    TickPlan,
};
use viddy::store::{Record, Timestamp};
use viddy::types::ExecutionId;

fn previous_record(stdout: &[u8]) -> Record {
    Record {
        id: ExecutionId(4),
        start_time: Timestamp { millis: 1000 },
        stdout: stdout.to_vec(),
        stderr: Vec::new(),
        end_time: Timestamp { millis: 1500 },
        exit_code: 0,
        diff: None,
        previous_id: None,
    }
}

#[test]
fn fixed_mode_sleeps_the_whole_interval() {
    // Even when the command itself took time, fixed mode waits the full
    // configured interval, so the inter-tick delay is at least the interval.
    assert_eq!(next_sleep_ms(false, 2000, 1500), 2000);
    assert_eq!(next_sleep_ms(false, 2000, 0), 2000);
}

#[test]
fn precise_mode_subtracts_elapsed_and_clamps_at_zero() {
    assert_eq!(next_sleep_ms(true, 2000, 500), 1500);
    assert_eq!(next_sleep_ms(true, 2000, 2000), 0);
    assert_eq!(next_sleep_ms(true, 2000, 9999), 0);
}

#[test]
fn plan_tick_polls_only_when_suspended() {
    assert_eq!(plan_tick(true), TickPlan::Poll);
    assert_eq!(plan_tick(false), TickPlan::Run);
}

#[test]
fn execution_ids_continue_from_the_stored_maximum() {
    assert_eq!(next_execution_id(None), ExecutionId(0));
    assert_eq!(next_execution_id(Some(ExecutionId(41))), ExecutionId(42));
}

#[test]
fn first_tick_has_no_diff() {
    let (record, changed) = process_tick(
        ExecutionId(0),
        Timestamp { millis: 10 },
        Timestamp { millis: 20 },
        b"out".to_vec(),
        b"err".to_vec(),
        0,
        None,
    );
    assert_eq!(record.id, ExecutionId(0));
    assert_eq!(record.diff, None);
    assert_eq!(record.previous_id, None);
    assert!(!changed);
}

#[test]
fn changed_output_counts_and_signals() {
    let prev = previous_record(b"hello world");
    let (record, changed) = process_tick(
        ExecutionId(5),
        Timestamp { millis: 10 },
        Timestamp { millis: 20 },
        b"hello world!".to_vec(),
        Vec::new(),
        0,
        Some(&prev),
    );
    assert_eq!(record.diff, Some((1, 0)));
    assert_eq!(record.previous_id, Some(ExecutionId(4)));
    assert!(changed);
}

#[test]
fn unchanged_output_reports_zero_diff() {
    let prev = previous_record(b"same");
    let (record, changed) = process_tick(
        ExecutionId(5),
        Timestamp { millis: 10 },
        Timestamp { millis: 20 },
        b"same".to_vec(),
        Vec::new(),
        0,
        Some(&prev),
    );
    assert_eq!(record.diff, Some((0, 0)));
    assert!(!changed);
}

#[test]
fn events_are_emitted_in_order() {
    let prev = previous_record(b"a");
    let (record, changed) = process_tick(
        ExecutionId(5),
        Timestamp { millis: 10 },
        Timestamp { millis: 20 },
        b"b".to_vec(),
        Vec::new(),
        1,
        Some(&prev),
    );
    let events = tick_events(&record, changed);
    assert_eq!(events.len(), 3);
    assert_eq!(
        events[0],
        RunnerEvent::ExecutionStarted { id: ExecutionId(5), start_time: Timestamp { millis: 10 } }
    );
    assert_eq!(events[1], RunnerEvent::ChangeDetected);
    assert_eq!(
        events[2],
        RunnerEvent::ExecutionFinished {
            id: ExecutionId(5),
            start_time: Timestamp { millis: 10 },
            diff: Some((1, 1)),
            exit_code: 1,
        }
    );
}
