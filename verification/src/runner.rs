//! The scheduler's per-tick decisions: minting execution ids, turning a
//! completed command run into a record with its diff counts and events, and
//! computing the sleep before the next tick in fixed or precise mode. The
//! loop around these — spawning the process, sleeping, sending events —
//! stays with the host.

use vstd::prelude::*;

use crate::diff::{count_diff, diff_added, diff_deleted};
use crate::store::{Record, Timestamp};
use crate::types::ExecutionId;
use crate::unicode::{chars_to_string, lossy_utf8, utf8_to_chars_lossy};

verus! {

/// How long a suspended scheduler sleeps before polling the suspend flag
/// again.
pub const SUSPEND_POLL_MS: u64 = 1000;

/// What the scheduler does at the start of a tick.
#[derive(Debug, Clone, Copy, PartialEq, Eq, Structural)]
pub enum TickPlan {
    /// Suspended: sleep [`SUSPEND_POLL_MS`] and retry without running
    /// anything or minting an id.
    Poll,
    /// Run the command.
    Run,
}

/// The events one execution emits, in order.
#[derive(Debug, Clone, PartialEq, Eq)]
pub enum RunnerEvent {
    ExecutionStarted { id: ExecutionId, start_time: Timestamp },
    ChangeDetected,
    ExecutionFinished {
        id: ExecutionId,
        start_time: Timestamp,
        diff: Option<(u32, u32)>,
        exit_code: i32,
    },
}

/// Decides the tick: a suspended scheduler only polls.
pub fn plan_tick(suspended: bool) -> (r: TickPlan)
    ensures
        r == TickPlan::Poll <==> suspended,
{
    if suspended {
        TickPlan::Poll
    } else {
        TickPlan::Run
    }
}

/// The id of the next execution: zero in a fresh session, one past the
/// latest stored id when resuming, so ids stay unique across a reload.
pub fn next_execution_id(latest: Option<ExecutionId>) -> (r: ExecutionId)
    requires
        latest matches Some(l) ==> l.0 < u32::MAX,
    ensures
        latest is None ==> r.0 == 0,
        latest matches Some(l) ==> r.0 == l.0 + 1,
{
    match latest {
        None => ExecutionId(0),
        Some(l) => ExecutionId(l.0 + 1),
    }
}

/// The record one completed run produces, and whether its output changed.
/// The diff counts are computed between the lossily decoded stdout of the
/// chain predecessor and of this run; without a predecessor there are no
/// counts and no change signal. The predecessor must have started strictly
/// earlier, so the records form a backward chain ordered by start time.
pub fn process_tick(
    id: ExecutionId,
    start_time: Timestamp,
    end_time: Timestamp,
    stdout: Vec<u8>,
    stderr: Vec<u8>,
    exit_code: i32,
    previous: Option<&Record>,
) -> (r: (Record, bool))
    requires
        stdout@.len() <= u32::MAX,
        previous matches Some(p) ==> p.stdout@.len() <= u32::MAX,
        previous matches Some(p) ==> p.start_time.millis < start_time.millis,
    ensures
        previous matches Some(p) ==> p.start_time.millis < r.0.start_time.millis,
        r.0.id == id,
        r.0.start_time == start_time,
        r.0.end_time == end_time,
        r.0.stdout@ == stdout@,
        r.0.stderr@ == stderr@,
        r.0.exit_code == exit_code,
        r.0.previous_id == (match previous {
            Some(p) => Some(p.id),
            None => None,
        }),
        (match previous {
            Some(p) => r.0.diff == Some(
                (
                    diff_added(lossy_utf8(p.stdout@), lossy_utf8(stdout@)) as u32,
                    diff_deleted(lossy_utf8(p.stdout@), lossy_utf8(stdout@)) as u32,
                ),
            ) && (r.1 <==> lossy_utf8(p.stdout@) != lossy_utf8(stdout@)),
            None => r.0.diff is None && !r.1,
        }),
{
    let (diff, changed) = match previous {
        Some(p) => {
            let old_chars = utf8_to_chars_lossy(p.stdout.as_slice());
            let new_chars = utf8_to_chars_lossy(stdout.as_slice());
            let old_text = chars_to_string(&old_chars);
            let new_text = chars_to_string(&new_chars);
            let (added, deleted) = count_diff(old_text.as_str(), new_text.as_str());
            (Some((added, deleted)), added != 0 || deleted != 0)
        },
        None => (None, false),
    };
    let record = Record {
        id,
        start_time,
        stdout,
        stderr,
        end_time,
        exit_code,
        diff,
        previous_id: match previous {
            Some(p) => Some(p.id),
            None => None,
        },
    };
    (record, changed)
}

/// The events a finished execution emits, in their guaranteed order: the
/// start, a change signal only when the output changed, and the finish.
pub fn tick_events(record: &Record, changed: bool) -> (r: Vec<RunnerEvent>)
    ensures
        r@.len() == (if changed {
            3int
        } else {
            2int
        }),
        r@[0] == (RunnerEvent::ExecutionStarted {
            id: record.id,
            start_time: record.start_time,
        }),
        changed ==> r@[1] == RunnerEvent::ChangeDetected,
        r@.last() == (RunnerEvent::ExecutionFinished {
            id: record.id,
            start_time: record.start_time,
            diff: record.diff,
            exit_code: record.exit_code,
        }),
{
    let mut events: Vec<RunnerEvent> = Vec::new();
    events.push(RunnerEvent::ExecutionStarted { id: record.id, start_time: record.start_time });
    if changed {
        events.push(RunnerEvent::ChangeDetected);
    }
    events.push(
        RunnerEvent::ExecutionFinished {
            id: record.id,
            start_time: record.start_time,
            diff: record.diff,
            exit_code: record.exit_code,
        },
    );
    events
}

/// The sleep before the next tick. Fixed mode always sleeps the configured
/// interval after the command returns; precise mode subtracts the elapsed
/// run time and never goes below zero, so an overrunning command causes no
/// catch-up burst.
pub fn next_sleep_ms(precise: bool, interval_ms: u64, elapsed_ms: u64) -> (r: u64)
    ensures
        !precise ==> r == interval_ms,
        precise ==> r == (if elapsed_ms >= interval_ms {
            0u64
        } else {
            (interval_ms - elapsed_ms) as u64
        }),
        r <= interval_ms,
{
    if precise {
        if elapsed_ms >= interval_ms {
            0
        } else {
            interval_ms - elapsed_ms
        }
    } else {
        interval_ms
    }
}

/// The sleep after a tick whose spawn or capture failed: the full
/// configured interval, in fixed and in precise mode alike. The failed
/// tick is skipped — nothing is diffed or persisted — and the loop goes
/// on; the failure is not fatal.
pub fn failed_tick_sleep_ms(interval_ms: u64) -> (r: u64)
    ensures
        r == interval_ms,
{
    interval_ms
}

} // verus!
