//! The operations on the run history: record a run, list the newest runs,
//! count them by status.

use crate::error::{ErrorView, StoreError};
use crate::history::{History, HistoryView, Recorded};
use crate::row::{decode_run, HeartbeatRun, RowView, RunRow, RunView};
use crate::timestamp::{read_timestamp, rfc3339_instant, rfc3339_text, Timestamp};
use vstd::prelude::*;
use vstd::utf8::*;

verus! {

/// The status of a run that succeeded.
pub const STATUS_OK: &'static str = "ok";

/// The status of a run that failed.
pub const STATUS_ERROR: &'static str = "error";

/// Records a heartbeat task execution and prunes old entries: of all rows the
/// newest `max_history`, and at least one, are kept. Says which row was added
/// and which ids went.
pub fn record_run(
    history: &mut History,
    task_text: &str,
    task_priority: &str,
    started_at: Timestamp,
    finished_at: Timestamp,
    status: &str,
    output: Option<&str>,
    duration_ms: i64,
    max_history: u32,
) -> (recorded: Result<Recorded, StoreError>)
    ensures
        final(history)@.valid(),
        match recorded {
            Ok(recorded) => {
                let keep = HistoryView::at_least_one(max_history as nat);
                &&& old(history)@.last_id < i64::MAX
                &&& recorded.row@ == old(history)@.next_row(
                    task_text@,
                    task_priority@,
                    started_at@.text(),
                    finished_at@.text(),
                    status@,
                    output,
                    duration_ms as int,
                )
                &&& started_at@.has_rfc3339_form() ==> started_at@.faithfully_written(
                    recorded.row@.started_at,
                )
                &&& finished_at@.has_rfc3339_form() ==> finished_at@.faithfully_written(
                    recorded.row@.finished_at,
                )
                &&& final(history)@ == old(history)@.record(recorded.row@, max_history as nat)
                &&& recorded.pruned@.map_values(|id: i64| id as int) == crate::history::row_ids(
                    HistoryView::dropped(old(history)@.insert(recorded.row@).rows, keep),
                )
            },
            Err(error) => {
                &&& old(history)@.last_id == i64::MAX
                &&& error@ == ErrorView::IdsExhausted
                &&& final(history)@ == old(history)@
            },
        },
        recorded is Ok <==> old(history)@.last_id < i64::MAX,
        recorded matches Err(error) ==> error is IdsExhausted && final(history)@ == old(history)@,
        recorded matches Ok(recorded) ==> {
            &&& recorded.row.id == old(history)@.last_id + 1
            &&& recorded.row.task_text@ == task_text@
            &&& recorded.row.task_priority@ == task_priority@
            &&& recorded.row.started_at@ == rfc3339_text(started_at@.secs, started_at@.nanos)
            &&& recorded.row.finished_at@ == rfc3339_text(finished_at@.secs, finished_at@.nanos)
            &&& recorded.row.status@ == status@
            &&& recorded.row.duration_ms == Some(duration_ms)
            &&& recorded.row.output is Some <==> output is Some
            &&& output matches Some(output) ==> {
                &&& encode_utf8(output@).len() <= 16384 ==> recorded.row.output->0@ == output@
                &&& encode_utf8(output@).len() > 16384 ==> exists|k: int|
                    {
                        &&& 0 <= k < output@.len()
                        &&& recorded.row.output->0@ == #[trigger] output@.take(k)
                            + "\n...[truncated]"@
                        &&& encode_utf8(output@.take(k)).len() + 15 <= 16384
                        &&& encode_utf8(output@.take(k + 1)).len() + 15 > 16384
                    }
            }
        },
        recorded matches Ok(recorded) ==> {
            let before = old(history)@.rows.push(recorded.row@);
            let after = final(history)@.rows;
            &&& final(history)@.last_id == recorded.row.id
            &&& max_history == 0 ==> after.len() == 1
            &&& 1 <= max_history < before.len() ==> after.len() == max_history
            &&& max_history >= before.len() ==> after == before
            &&& forall|i: int| 0 <= i < after.len() ==> before.contains(#[trigger] after[i])
            &&& forall|x: RowView, y: RowView| #[trigger]
                after.contains(x) && #[trigger] before.contains(y) && !after.contains(y) ==> {
                    ||| crate::text::text_before(y.started_at, x.started_at)
                    ||| x.started_at == y.started_at && x.id > y.id
                }
            &&& forall|id: i64| #[trigger]
                recorded.pruned@.contains(id) <==> {
                    &&& exists|i: int| 0 <= i < before.len() && #[trigger] before[i].id == id
                    &&& forall|j: int| 0 <= j < after.len() ==> #[trigger] after[j].id != id
                }
            &&& recorded.pruned@.no_duplicates()
        },
        recorded is Ok && -62_167_219_200 <= started_at@.secs <= 253_402_300_799
            ==> rfc3339_instant(recorded->Ok_0.row.started_at@) == Some(
            (started_at@.secs, started_at@.nanos),
        ),
        recorded is Ok && -62_167_219_200 <= finished_at@.secs <= 253_402_300_799
            ==> rfc3339_instant(recorded->Ok_0.row.finished_at@) == Some(
            (finished_at@.secs, finished_at@.nanos),
        ),
{
    let started_at = started_at.to_rfc3339();
    let finished_at = finished_at.to_rfc3339();
    history.record_row(
        task_text,
        task_priority,
        started_at.as_str(),
        finished_at.as_str(),
        status,
        output,
        duration_ms,
        max_history,
    )
}

/// Whether `listed` is what going through `decoded` gives: all runs in turn,
/// or the first error.
pub open spec fn lists(
    decoded: Seq<Result<RunView, ErrorView>>,
    listed: Result<Vec<HeartbeatRun>, StoreError>,
) -> bool {
    match listed {
        Ok(runs) => {
            &&& runs@.len() == decoded.len()
            &&& forall|i: int|
                0 <= i < decoded.len() ==> #[trigger] decoded[i] == Ok::<RunView, ErrorView>(
                    runs@[i]@,
                )
        },
        Err(error) => exists|i: int|
            {
                &&& 0 <= i < decoded.len()
                &&& #[trigger] decoded[i] == Err::<RunView, ErrorView>(error@)
                &&& forall|j: int| 0 <= j < i ==> #[trigger] decoded[j] is Ok
            },
    }
}

/// What each of `rows` tells of, given the start and finish times that were
/// read in it.
pub open spec fn decoded_rows(
    rows: Seq<&RunRow>,
    times: Seq<(Option<Timestamp>, Option<Timestamp>)>,
) -> Seq<Result<RunView, ErrorView>> {
    Seq::new(
        rows.len(),
        |i: int|
            rows[i]@.decoded(
                crate::row::optional_instant(times[i].0),
                crate::row::optional_instant(times[i].1),
            ),
    )
}

/// The runs that `rows` tell of, given the start and finish times that were
/// read in each of them.
pub fn decode_runs(
    rows: &Vec<&RunRow>,
    times: &Vec<(Option<Timestamp>, Option<Timestamp>)>,
) -> (listed: Result<Vec<HeartbeatRun>, StoreError>)
    requires
        rows@.len() == times@.len(),
    ensures
        lists(decoded_rows(rows@, times@), listed),
        listed is Ok <==> forall|i: int|
            0 <= i < rows@.len() ==> times@[i].0 is Some && times@[i].1 is Some && (
            #[trigger] rows@[i]).duration_ms is Some,
        listed matches Ok(runs) ==> {
            &&& runs@.len() == rows@.len()
            &&& forall|i: int|
                0 <= i < rows@.len() ==> {
                    &&& (#[trigger] runs@[i]).id == rows@[i].id
                    &&& runs@[i].task_text@ == rows@[i].task_text@
                    &&& runs@[i].task_priority@ == rows@[i].task_priority@
                    &&& times@[i].0 is Some && runs@[i].started_at@ == times@[i].0->0@
                    &&& times@[i].1 is Some && runs@[i].finished_at@ == times@[i].1->0@
                    &&& runs@[i].status@ == rows@[i].status@
                    &&& runs@[i].output is Some <==> rows@[i].output is Some
                    &&& runs@[i].output is Some ==> runs@[i].output->0@ == rows@[i].output->0@
                    &&& rows@[i].duration_ms == Some(runs@[i].duration_ms)
                }
        },
        listed matches Err(error) ==> exists|i: int|
            {
                let row = #[trigger] rows@[i];
                &&& 0 <= i < rows@.len()
                &&& forall|j: int|
                    0 <= j < i ==> times@[j].0 is Some && times@[j].1 is Some && (
                    #[trigger] rows@[j]).duration_ms is Some
                &&& if times@[i].0 is None {
                    error is InvalidTimestamp && error->raw@ == row.started_at@
                } else if times@[i].1 is None {
                    error is InvalidTimestamp && error->raw@ == row.finished_at@
                } else {
                    error is MissingDuration && row.duration_ms is None
                }
            },
{
    let ghost decoded = decoded_rows(rows@, times@);
    let mut runs: Vec<HeartbeatRun> = Vec::new();
    let mut i: usize = 0;
    while i < rows.len()
        invariant
            i <= rows@.len(),
            rows@.len() == times@.len(),
            decoded == decoded_rows(rows@, times@),
            runs@.len() == i,
            forall|j: int|
                0 <= j < i ==> #[trigger] decoded[j] == Ok::<RunView, ErrorView>(runs@[j]@),
            forall|j: int|
                0 <= j < i ==> times@[j].0 is Some && times@[j].1 is Some && (
                #[trigger] rows@[j]).duration_ms is Some,
            forall|j: int|
                0 <= j < i ==> {
                    &&& (#[trigger] runs@[j]).id == rows@[j].id
                    &&& runs@[j].task_text@ == rows@[j].task_text@
                    &&& runs@[j].task_priority@ == rows@[j].task_priority@
                    &&& times@[j].0 is Some && runs@[j].started_at@ == times@[j].0->0@
                    &&& times@[j].1 is Some && runs@[j].finished_at@ == times@[j].1->0@
                    &&& runs@[j].status@ == rows@[j].status@
                    &&& runs@[j].output is Some <==> rows@[j].output is Some
                    &&& runs@[j].output is Some ==> runs@[j].output->0@ == rows@[j].output->0@
                    &&& rows@[j].duration_ms == Some(runs@[j].duration_ms)
                },
        decreases rows@.len() - i,
    {
        match decode_run(rows[i], times[i].0, times[i].1) {
            Ok(run) => {
                assert(decoded[i as int] == Ok::<RunView, ErrorView>(run@));
                runs.push(run);
            },
            Err(error) => {
                assert(decoded[i as int] == Err::<RunView, ErrorView>(error@));
                return Err(error);
            },
        }
        i += 1;
    }
    Ok(runs)
}

/// The start and finish times that can be read in `rows`.
fn read_times(rows: &Vec<&RunRow>) -> (times: Vec<(Option<Timestamp>, Option<Timestamp>)>)
    ensures
        times@.len() == rows@.len(),
        forall|i: int|
            0 <= i < rows@.len() ==> {
                &&& crate::row::optional_instant((#[trigger] times@[i]).0)
                    == crate::timestamp::read_instant(rows@[i]@.started_at)
                &&& crate::row::optional_instant(times@[i].1) == crate::timestamp::read_instant(
                    rows@[i]@.finished_at,
                )
            },
{
    let mut times: Vec<(Option<Timestamp>, Option<Timestamp>)> = Vec::new();
    let mut i: usize = 0;
    while i < rows.len()
        invariant
            i <= rows@.len(),
            times@.len() == i,
            forall|j: int|
                0 <= j < i ==> {
                    &&& crate::row::optional_instant((#[trigger] times@[j]).0)
                        == crate::timestamp::read_instant(rows@[j]@.started_at)
                    &&& crate::row::optional_instant(times@[j].1)
                        == crate::timestamp::read_instant(rows@[j]@.finished_at)
                },
        decreases rows@.len() - i,
    {
        let started_at = read_timestamp(rows[i].started_at.as_str());
        let finished_at = read_timestamp(rows[i].finished_at.as_str());
        times.push((started_at, finished_at));
        i += 1;
    }
    times
}

/// Lists the most recent heartbeat runs, newest first: `limit` of them, and at
/// least one, where there are as many.
pub fn list_runs(history: &History, limit: usize) -> (listed: Result<Vec<HeartbeatRun>, StoreError>)
    ensures
        limit > i64::MAX <==> (listed is Err && listed->Err_0@ == ErrorView::LimitOverflow),
        limit <= i64::MAX ==> lists(
            history@.recent(HistoryView::at_least_one(limit as nat)).map_values(
                |row: RowView| row.run(),
            ),
            listed,
        ),
        limit > i64::MAX <==> (listed is Err && listed->Err_0 is LimitOverflow),
        listed matches Ok(runs) ==> {
            let rows = history@.recent(
                if limit == 0 {
                    1
                } else {
                    limit as nat
                },
            );
            &&& limit == 0 && history@.rows.len() > 0 ==> runs@.len() == 1
            &&& 1 <= limit <= history@.rows.len() ==> runs@.len() == limit
            &&& limit > history@.rows.len() ==> runs@.len() == history@.rows.len()
            &&& runs@.len() == rows.len()
            &&& forall|i: int|
                0 <= i < rows.len() ==> {
                    &&& (#[trigger] runs@[i]).id == rows[i].id
                    &&& runs@[i].task_text@ == rows[i].task_text
                    &&& runs@[i].task_priority@ == rows[i].task_priority
                    &&& rfc3339_instant(rows[i].started_at) == Some(
                        (runs@[i].started_at@.secs, runs@[i].started_at@.nanos),
                    )
                    &&& rfc3339_instant(rows[i].finished_at) == Some(
                        (runs@[i].finished_at@.secs, runs@[i].finished_at@.nanos),
                    )
                    &&& runs@[i].status@ == rows[i].status
                    &&& runs@[i].output is Some <==> rows[i].output is Some
                    &&& runs@[i].output is Some ==> runs@[i].output->0@ == rows[i].output->0
                    &&& rows[i].duration_ms == Some(runs@[i].duration_ms as int)
                }
        },
{
    if limit as u128 > i64::MAX as u128 {
        return Err(StoreError::LimitOverflow);
    }
    let count: usize = if limit < 1 {
        1
    } else {
        limit
    };
    let rows = history.recent(count);
    let times = read_times(&rows);
    let listed = decode_runs(&rows, &times);
    proof {
        let views = history@.recent(count as nat);
        assert forall|i: int| 0 <= i < views.len() implies #[trigger] views[i].run()
            == decoded_rows(rows@, times@)[i] by {
            assert(rows@.map_values(|row: &RunRow| row@)[i] == rows@[i]@);
            assert(crate::row::optional_instant(times@[i].0) == crate::timestamp::read_instant(
                rows@[i]@.started_at,
            ));
        }
        assert(views.map_values(|row: RowView| row.run()) =~= decoded_rows(rows@, times@));
        crate::laws::law_listed_runs_are_the_rows(views, listed);
    }
    listed
}

/// Aggregate stats: (total_runs, total_ok, total_error).
pub fn run_stats(history: &History) -> (stats: (u64, u64, u64))
    ensures
        stats.0 == history@.rows.len(),
        stats.1 == history@.count_status(STATUS_OK@),
        stats.2 == history@.count_status(STATUS_ERROR@),
        stats.1 == Set::new(
            |i: int| 0 <= i < history@.rows.len() && history@.rows[i].status == "ok"@,
        ).len(),
        stats.2 == Set::new(
            |i: int| 0 <= i < history@.rows.len() && history@.rows[i].status == "error"@,
        ).len(),
{
    let total: usize = history.rows().len();
    let ok: usize = history.count_status(STATUS_OK);
    let error: usize = history.count_status(STATUS_ERROR);
    (total as u64, ok as u64, error as u64)
}

} // verus!
