//! The rows of the history, and the runs that they tell of.

use crate::error::{ErrorView, StoreError};
use crate::text::{is_before, is_same};
use crate::timestamp::{checked_timestamp, Instant, Timestamp};
use vstd::prelude::*;

verus! {

/// A row of the history, column by column as it is stored.
#[derive(Debug, Clone, PartialEq, Eq)]
pub struct RunRow {
    pub id: i64,
    pub task_text: String,
    pub task_priority: String,
    pub started_at: String,
    pub finished_at: String,
    pub status: String,
    pub output: Option<String>,
    pub duration_ms: Option<i64>,
}

/// The mathematical reading of a `RunRow`.
pub struct RowView {
    pub id: int,
    pub task_text: Seq<char>,
    pub task_priority: Seq<char>,
    pub started_at: Seq<char>,
    pub finished_at: Seq<char>,
    pub status: Seq<char>,
    pub output: Option<Seq<char>>,
    pub duration_ms: Option<int>,
}

/// A single heartbeat task execution record.
#[derive(Debug, Clone)]
pub struct HeartbeatRun {
    pub id: i64,
    pub task_text: String,
    pub task_priority: String,
    pub started_at: Timestamp,
    pub finished_at: Timestamp,
    /// "ok" or "error".
    pub status: String,
    pub output: Option<String>,
    pub duration_ms: i64,
}

/// The mathematical reading of a `HeartbeatRun`.
pub struct RunView {
    pub id: int,
    pub task_text: Seq<char>,
    pub task_priority: Seq<char>,
    pub started_at: Instant,
    pub finished_at: Instant,
    pub status: Seq<char>,
    pub output: Option<Seq<char>>,
    pub duration_ms: int,
}

/// The mathematical reading of an optional text.
pub open spec fn optional_text(text: Option<String>) -> Option<Seq<char>> {
    match text {
        Some(text) => Some(text@),
        None => None,
    }
}

impl View for RunRow {
    type V = RowView;

    open spec fn view(&self) -> RowView {
        RowView {
            id: self.id as int,
            task_text: self.task_text@,
            task_priority: self.task_priority@,
            started_at: self.started_at@,
            finished_at: self.finished_at@,
            status: self.status@,
            output: optional_text(self.output),
            duration_ms: match self.duration_ms {
                Some(duration_ms) => Some(duration_ms as int),
                None => None,
            },
        }
    }
}

impl View for HeartbeatRun {
    type V = RunView;

    open spec fn view(&self) -> RunView {
        RunView {
            id: self.id as int,
            task_text: self.task_text@,
            task_priority: self.task_priority@,
            started_at: self.started_at@,
            finished_at: self.finished_at@,
            status: self.status@,
            output: optional_text(self.output),
            duration_ms: self.duration_ms as int,
        }
    }
}

impl RowView {
    /// Whether the row comes before `other` in a listing: its start sorts
    /// later, or both starts are the same and its id is larger.
    pub open spec fn newer_than(self, other: RowView) -> bool {
        crate::text::text_before(other.started_at, self.started_at) || (self.started_at
            == other.started_at && self.id > other.id)
    }

    /// The run that the row tells of, given the instants that its two
    /// timestamps were read as.
    pub open spec fn decoded(
        self,
        started_at: Option<Instant>,
        finished_at: Option<Instant>,
    ) -> Result<RunView, ErrorView> {
        match (started_at, finished_at, self.duration_ms) {
            (None, _, _) => Err(ErrorView::InvalidTimestamp { raw: self.started_at }),
            (Some(_), None, _) => Err(ErrorView::InvalidTimestamp { raw: self.finished_at }),
            (Some(_), Some(_), None) => Err(ErrorView::MissingDuration),
            (Some(started_at), Some(finished_at), Some(duration_ms)) => Ok(
                RunView {
                    id: self.id,
                    task_text: self.task_text,
                    task_priority: self.task_priority,
                    started_at,
                    finished_at,
                    status: self.status,
                    output: self.output,
                    duration_ms,
                },
            ),
        }
    }

    /// Whether the start of the row is the text of an instant, reads as it, and
    /// sorts as it does.
    pub open spec fn has_written_start(self) -> bool {
        exists|at: Instant| #[trigger] at.faithfully_written(self.started_at)
    }

    /// The run that the row tells of.
    pub open spec fn run(self) -> Result<RunView, ErrorView> {
        self.decoded(
            crate::timestamp::read_instant(self.started_at),
            crate::timestamp::read_instant(self.finished_at),
        )
    }
}

/// A copy of an optional text.
fn copy_text(text: &Option<String>) -> (copy: Option<String>)
    ensures
        optional_text(copy) == optional_text(*text),
{
    match text {
        Some(text) => Some(text.clone()),
        None => None,
    }
}

impl RunRow {
    /// A copy of the row.
    pub fn copy(&self) -> (copy: RunRow)
        ensures
            copy@ == self@,
            copy.id == self.id,
            copy.task_text@ == self.task_text@,
            copy.task_priority@ == self.task_priority@,
            copy.started_at@ == self.started_at@,
            copy.finished_at@ == self.finished_at@,
            copy.status@ == self.status@,
            copy.output is Some <==> self.output is Some,
            self.output is Some ==> copy.output->0@ == self.output->0@,
            copy.duration_ms == self.duration_ms,
    {
        RunRow {
            id: self.id,
            task_text: self.task_text.clone(),
            task_priority: self.task_priority.clone(),
            started_at: self.started_at.clone(),
            finished_at: self.finished_at.clone(),
            status: self.status.clone(),
            output: copy_text(&self.output),
            duration_ms: self.duration_ms,
        }
    }

    /// Whether the row comes before `other` in a listing.
    pub fn is_newer_than(&self, other: &RunRow) -> (newer: bool)
        ensures
            newer == self@.newer_than(other@),
            newer <==> crate::text::text_before(other.started_at@, self.started_at@) || (
            self.started_at@ == other.started_at@ && self.id > other.id),
    {
        let mine = self.started_at.as_str();
        let theirs = other.started_at.as_str();
        is_before(theirs, mine) || (is_same(mine, theirs) && self.id > other.id)
    }
}

/// The instant of an optional timestamp.
pub open spec fn optional_instant(timestamp: Option<Timestamp>) -> Option<Instant> {
    match timestamp {
        Some(timestamp) => Some(timestamp@),
        None => None,
    }
}

/// The run that `row` tells of, given the timestamps that were read in its
/// two time columns.
pub fn decode_run(
    row: &RunRow,
    started_at: Option<Timestamp>,
    finished_at: Option<Timestamp>,
) -> (run: Result<HeartbeatRun, StoreError>)
    ensures
        match run {
            Ok(run) => row@.decoded(optional_instant(started_at), optional_instant(finished_at))
                == Ok::<RunView, ErrorView>(run@),
            Err(error) => row@.decoded(
                optional_instant(started_at),
                optional_instant(finished_at),
            ) == Err::<RunView, ErrorView>(error@),
        },
        run is Ok <==> started_at is Some && finished_at is Some && row.duration_ms is Some,
        run matches Ok(run) ==> {
            &&& run.id == row.id
            &&& run.task_text@ == row.task_text@
            &&& run.task_priority@ == row.task_priority@
            &&& started_at == Some(run.started_at)
            &&& finished_at == Some(run.finished_at)
            &&& run.status@ == row.status@
            &&& run.output is Some <==> row.output is Some
            &&& row.output is Some ==> run.output->0@ == row.output->0@
            &&& row.duration_ms == Some(run.duration_ms)
        },
        run matches Err(error) ==> if started_at is None {
            error is InvalidTimestamp && error->raw@ == row.started_at@
        } else if finished_at is None {
            error is InvalidTimestamp && error->raw@ == row.finished_at@
        } else {
            error is MissingDuration
        },
{
    let started_at = match checked_timestamp(row.started_at.as_str(), started_at) {
        Ok(started_at) => started_at,
        Err(error) => return Err(error),
    };
    let finished_at = match checked_timestamp(row.finished_at.as_str(), finished_at) {
        Ok(finished_at) => finished_at,
        Err(error) => return Err(error),
    };
    match row.duration_ms {
        Some(duration_ms) => Ok(
            HeartbeatRun {
                id: row.id,
                task_text: row.task_text.clone(),
                task_priority: row.task_priority.clone(),
                started_at,
                finished_at,
                status: row.status.clone(),
                output: copy_text(&row.output),
                duration_ms,
            },
        ),
        None => Err(StoreError::MissingDuration),
    }
}

/// The reading of a row holds what the row holds, column by column.
pub proof fn law_row_reading_is_faithful(row: RunRow)
    ensures
        row@.id == row.id,
        row@.task_text == row.task_text@,
        row@.task_priority == row.task_priority@,
        row@.started_at == row.started_at@,
        row@.finished_at == row.finished_at@,
        row@.status == row.status@,
        row@.output is Some <==> row.output is Some,
        row.output is Some ==> row@.output->0 == row.output->0@,
        row@.duration_ms is Some <==> row.duration_ms is Some,
        row.duration_ms is Some ==> row@.duration_ms->0 == row.duration_ms->0,
{
}

/// The reading of a run holds what the run holds, field by field.
pub proof fn law_run_reading_is_faithful(run: HeartbeatRun)
    ensures
        run@.id == run.id,
        run@.task_text == run.task_text@,
        run@.task_priority == run.task_priority@,
        run@.started_at == run.started_at@,
        run@.finished_at == run.finished_at@,
        run@.status == run.status@,
        run@.output is Some <==> run.output is Some,
        run.output is Some ==> run@.output->0 == run.output->0@,
        run@.duration_ms == run.duration_ms,
{
}

/// Of two rows the one whose start sorts later is newer, whatever their ids.
/// Where both starts are the same, the one with the larger id is. Nothing else
/// in a row matters.
pub proof fn law_start_then_id_decides(a: RowView, b: RowView)
    ensures
        crate::text::text_before(b.started_at, a.started_at) ==> a.newer_than(b) && !b.newer_than(
            a,
        ),
        a.started_at == b.started_at ==> (a.newer_than(b) <==> a.id > b.id),
{
    crate::text::law_text_order_is_total(b.started_at, a.started_at, a.started_at);
    crate::text::law_text_order_is_total(a.started_at, a.started_at, a.started_at);
}

/// A row tells of a run exactly if `chrono` reads both its times and it holds a
/// duration. The run then has the columns of the row, and the instants that
/// `chrono` read. Else the first of the three that fails is reported.
pub proof fn law_row_tells_of_its_columns(row: RowView)
    ensures
        row.run() is Ok <==> crate::timestamp::rfc3339_instant(row.started_at) is Some
            && crate::timestamp::rfc3339_instant(row.finished_at) is Some
            && row.duration_ms is Some,
        row.run() matches Ok(run) ==> {
            &&& run.id == row.id
            &&& run.task_text == row.task_text
            &&& run.task_priority == row.task_priority
            &&& crate::timestamp::rfc3339_instant(row.started_at) == Some(
                (run.started_at.secs, run.started_at.nanos),
            )
            &&& crate::timestamp::rfc3339_instant(row.finished_at) == Some(
                (run.finished_at.secs, run.finished_at.nanos),
            )
            &&& run.status == row.status
            &&& run.output == row.output
            &&& row.duration_ms == Some(run.duration_ms)
        },
        row.run() matches Err(error) ==> error == if crate::timestamp::rfc3339_instant(
            row.started_at,
        ) is None {
            ErrorView::InvalidTimestamp { raw: row.started_at }
        } else if crate::timestamp::rfc3339_instant(row.finished_at) is None {
            ErrorView::InvalidTimestamp { raw: row.finished_at }
        } else {
            ErrorView::MissingDuration
        },
{
}

} // verus!
