use chrono::{DateTime, Duration as ChronoDuration, Utc};
use heartbeat_store::{
    list_runs, record_run, run_stats, History, Recorded, StoreError, Timestamp, MAX_OUTPUT_BYTES,
    TRUNCATED_MARKER,
};

fn at(moment: DateTime<Utc>) -> Timestamp {
    Timestamp::new(moment.timestamp(), moment.timestamp_subsec_nanos()).unwrap()
}

fn record(
    history: &mut History,
    task_text: &str,
    priority: &str,
    start: DateTime<Utc>,
    end: DateTime<Utc>,
    status: &str,
    output: Option<&str>,
    duration_ms: i64,
    max_history: u32,
) -> Result<Recorded, StoreError> {
    record_run(
        history,
        task_text,
        priority,
        at(start),
        at(end),
        status,
        output,
        duration_ms,
        max_history,
    )
}

#[test]
fn record_and_list_runs() {
    let mut history = History::new();
    let base = Utc::now();

    for i in 0..3 {
        let start = base + ChronoDuration::seconds(i);
        let end = start + ChronoDuration::milliseconds(100);
        record(
            &mut history,
            &format!("Task {i}"),
            "medium",
            start,
            end,
            "ok",
            Some("done"),
            100,
            50,
        )
        .unwrap();
    }

    let runs = list_runs(&history, 10).unwrap();
    assert_eq!(runs.len(), 3);
    // Most recent first
    assert!(runs[0].task_text.contains('2'));
}

#[test]
fn prunes_old_runs() {
    let mut history = History::new();
    let base = Utc::now();

    for i in 0..5 {
        let start = base + ChronoDuration::seconds(i);
        let end = start + ChronoDuration::milliseconds(50);
        // keep only 2
        record(&mut history, "Task", "high", start, end, "ok", None, 50, 2).unwrap();
    }

    let runs = list_runs(&history, 10).unwrap();
    assert_eq!(runs.len(), 2);
}

#[test]
fn run_stats_counts_correctly() {
    let mut history = History::new();
    let now = Utc::now();

    record(&mut history, "A", "high", now, now, "ok", None, 10, 50).unwrap();
    record(&mut history, "B", "low", now, now, "error", Some("fail"), 20, 50).unwrap();
    record(&mut history, "C", "medium", now, now, "ok", None, 15, 50).unwrap();

    let (total, ok, err) = run_stats(&history);
    assert_eq!(total, 3);
    assert_eq!(ok, 2);
    assert_eq!(err, 1);
}

#[test]
fn truncates_large_output() {
    let mut history = History::new();
    let now = Utc::now();
    let big = "x".repeat(MAX_OUTPUT_BYTES + 512);

    record(&mut history, "T", "medium", now, now, "ok", Some(&big), 10, 50).unwrap();

    let runs = list_runs(&history, 1).unwrap();
    let stored = runs[0].output.as_deref().unwrap_or_default();
    assert!(stored.ends_with(TRUNCATED_MARKER));
    assert!(stored.len() <= MAX_OUTPUT_BYTES);
}

#[test]
fn list_runs_empty_db() {
    let history = History::new();
    let runs = list_runs(&history, 10).unwrap();
    assert!(runs.is_empty());
}

#[test]
fn run_stats_empty_db() {
    let history = History::new();
    let (total, ok, err) = run_stats(&history);
    assert_eq!(total, 0);
    assert_eq!(ok, 0);
    assert_eq!(err, 0);
}

#[test]
fn record_run_with_none_output() {
    let mut history = History::new();
    let now = Utc::now();
    record(&mut history, "T", "medium", now, now, "ok", None, 10, 50).unwrap();

    let runs = list_runs(&history, 1).unwrap();
    assert_eq!(runs.len(), 1);
    assert!(runs[0].output.is_none());
}

#[test]
fn record_run_max_history_one() {
    let mut history = History::new();
    let base = Utc::now();

    for i in 0..5 {
        let start = base + ChronoDuration::seconds(i);
        let end = start + ChronoDuration::milliseconds(10);
        // keep only 1
        record(
            &mut history,
            &format!("Task {i}"),
            "medium",
            start,
            end,
            "ok",
            None,
            10,
            1,
        )
        .unwrap();
    }

    let runs = list_runs(&history, 10).unwrap();
    assert_eq!(runs.len(), 1);
}

#[test]
fn record_run_empty_string_output() {
    let mut history = History::new();
    let now = Utc::now();
    record(&mut history, "T", "medium", now, now, "ok", Some(""), 10, 50).unwrap();

    let runs = list_runs(&history, 1).unwrap();
    assert_eq!(runs.len(), 1);
    // Empty string is stored as Some(""), not None
    assert_eq!(runs[0].output.as_deref(), Some(""));
}

#[test]
fn record_run_special_chars_in_task_text() {
    let mut history = History::new();
    let now = Utc::now();
    let special = "Task with 'quotes', \"doubles\", and SQL: DROP TABLE; --";
    record(&mut history, special, "high", now, now, "ok", None, 10, 50).unwrap();

    let runs = list_runs(&history, 1).unwrap();
    assert_eq!(runs[0].task_text, special);
}

#[test]
fn record_run_zero_duration() {
    let mut history = History::new();
    let now = Utc::now();
    record(&mut history, "T", "medium", now, now, "ok", None, 0, 50).unwrap();

    let runs = list_runs(&history, 1).unwrap();
    assert_eq!(runs[0].duration_ms, 0);
}

#[test]
fn record_run_negative_duration() {
    let mut history = History::new();
    let now = Utc::now();
    record(&mut history, "T", "medium", now, now, "ok", None, -1, 50).unwrap();

    let runs = list_runs(&history, 1).unwrap();
    assert_eq!(runs[0].duration_ms, -1);
}

#[test]
fn record_run_unicode_output() {
    let mut history = History::new();
    let now = Utc::now();
    let unicode_output = "日本語の結果 🎉 €100";
    record(
        &mut history,
        "T",
        "medium",
        now,
        now,
        "ok",
        Some(unicode_output),
        10,
        50,
    )
    .unwrap();

    let runs = list_runs(&history, 1).unwrap();
    assert_eq!(runs[0].output.as_deref(), Some(unicode_output));
}

#[test]
fn list_runs_limit_clamped_to_one() {
    let mut history = History::new();
    let now = Utc::now();
    for i in 0..3 {
        let start = now + ChronoDuration::seconds(i);
        record(
            &mut history,
            &format!("T{i}"),
            "medium",
            start,
            start,
            "ok",
            None,
            10,
            50,
        )
        .unwrap();
    }
    // limit=0 is clamped to 1
    let runs = list_runs(&history, 0).unwrap();
    assert_eq!(runs.len(), 1);
}

#[test]
fn list_runs_ordering_same_timestamp() {
    let mut history = History::new();
    let now = Utc::now();
    // Record multiple runs with the same timestamp
    for i in 0..3 {
        record(
            &mut history,
            &format!("Task {i}"),
            "medium",
            now,
            now,
            "ok",
            None,
            10,
            50,
        )
        .unwrap();
    }
    let runs = list_runs(&history, 10).unwrap();
    assert_eq!(runs.len(), 3);
    // With same timestamp, ordered by id DESC: Task 2 first
    assert!(runs[0].task_text.contains('2'));
    assert!(runs[2].task_text.contains('0'));
}

#[test]
fn run_stats_only_errors() {
    let mut history = History::new();
    let now = Utc::now();
    record(&mut history, "A", "high", now, now, "error", None, 10, 50).unwrap();
    record(&mut history, "B", "high", now, now, "error", None, 10, 50).unwrap();

    let (total, ok, err) = run_stats(&history);
    assert_eq!(total, 2);
    assert_eq!(ok, 0);
    assert_eq!(err, 2);
}

#[test]
fn run_stats_only_ok() {
    let mut history = History::new();
    let now = Utc::now();
    record(&mut history, "A", "high", now, now, "ok", None, 10, 50).unwrap();
    record(&mut history, "B", "high", now, now, "ok", None, 10, 50).unwrap();

    let (total, ok, err) = run_stats(&history);
    assert_eq!(total, 2);
    assert_eq!(ok, 2);
    assert_eq!(err, 0);
}

#[test]
fn record_run_max_history_keeps_most_recent() {
    let mut history = History::new();
    let base = Utc::now();

    for i in 0..5 {
        let start = base + ChronoDuration::seconds(i);
        let end = start + ChronoDuration::milliseconds(10);
        record(
            &mut history,
            &format!("Task {i}"),
            "medium",
            start,
            end,
            "ok",
            None,
            10,
            3,
        )
        .unwrap();
    }

    let runs = list_runs(&history, 10).unwrap();
    assert_eq!(runs.len(), 3);
    // Most recent 3 should be Task 4, 3, 2
    assert!(runs[0].task_text.contains('4'));
    assert!(runs[1].task_text.contains('3'));
    assert!(runs[2].task_text.contains('2'));
}

#[test]
fn recorded_run_reads_back_as_recorded() {
    let mut history = History::new();
    let start = Timestamp::new(1_431_648_000, 123_456_789).unwrap();
    let end = Timestamp::new(1_431_648_001, 0).unwrap();
    let recorded =
        record_run(&mut history, "Back up", "high", start, end, "ok", Some("done"), 877, 5)
            .unwrap();
    assert_eq!(recorded.row.started_at, "2015-05-15T00:00:00.123456789+00:00");
    assert_eq!(recorded.row.finished_at, "2015-05-15T00:00:01+00:00");
    assert_eq!(recorded.row.duration_ms, Some(877));
    assert!(recorded.pruned.is_empty());

    let runs = list_runs(&history, 1).unwrap();
    assert_eq!(runs[0].id, 1);
    assert_eq!(runs[0].task_text, "Back up");
    assert_eq!(runs[0].task_priority, "high");
    assert_eq!(runs[0].started_at, start);
    assert_eq!(runs[0].finished_at, end);
    assert_eq!(runs[0].status, "ok");
    assert_eq!(runs[0].output.as_deref(), Some("done"));
    assert_eq!(runs[0].duration_ms, 877);
}

#[test]
fn run_outside_the_four_digit_years_cannot_be_listed() {
    let mut history = History::new();
    let start = Timestamp::new(253_402_300_800, 0).unwrap();
    let recorded = record_run(&mut history, "T", "low", start, start, "ok", None, 1, 5).unwrap();
    assert_eq!(recorded.row.started_at, "+10000-01-01T00:00:00+00:00");
    assert_eq!(
        list_runs(&history, 1).unwrap_err(),
        StoreError::InvalidTimestamp { raw: "+10000-01-01T00:00:00+00:00".to_string() }
    );
}

#[test]
fn fractions_of_a_second_sort_by_time() {
    let mut history = History::new();
    let nanos = [500_000_000u32, 0, 500_100_000, 1, 500_000_001, 999_999_999];
    for n in nanos {
        let start = Timestamp::new(1_700_000_000, n).unwrap();
        record_run(&mut history, "T", "low", start, start, "ok", None, 1, 50).unwrap();
    }
    let listed: Vec<u32> =
        list_runs(&history, 50).unwrap().iter().map(|run| run.started_at.nanos()).collect();
    assert_eq!(listed, [999_999_999, 500_100_000, 500_000_001, 500_000_000, 1, 0]);
}

#[test]
fn leap_second_sorts_between_its_neighbours() {
    let mut history = History::new();
    let moments = [(1_435_708_800i64, 0u32), (1_435_708_799, 1_500_000_000), (1_435_708_799, 0)];
    for (secs, nanos) in moments {
        let start = Timestamp::new(secs, nanos).unwrap();
        record_run(&mut history, "T", "low", start, start, "ok", None, 1, 50).unwrap();
    }
    let runs = list_runs(&history, 50).unwrap();
    let listed: Vec<(i64, u32)> =
        runs.iter().map(|run| (run.started_at.secs(), run.started_at.nanos())).collect();
    assert_eq!(listed, moments);
}

#[test]
fn run_older_than_a_full_history_goes_at_once() {
    let mut history = History::new();
    for secs in [100i64, 200, 50, 300] {
        let start = Timestamp::new(secs, 0).unwrap();
        let recorded =
            record_run(&mut history, "T", "low", start, start, "ok", None, 1, 2).unwrap();
        match secs {
            50 => assert_eq!(recorded.pruned, [3]),
            300 => {
                assert_eq!(recorded.row.id, 4);
                assert_eq!(recorded.pruned, [1]);
            }
            _ => assert!(recorded.pruned.is_empty()),
        }
    }
    let ids: Vec<i64> = history.rows().iter().map(|row| row.id).collect();
    assert_eq!(ids, [2, 4]);
    assert_eq!(history.last_id(), 4);
}

#[test]
fn lower_maximum_prunes_several_runs() {
    let mut history = History::new();
    for secs in 1i64..5 {
        let start = Timestamp::new(secs, 0).unwrap();
        record_run(&mut history, "T", "low", start, start, "ok", None, 1, 10).unwrap();
    }
    let start = Timestamp::new(5, 0).unwrap();
    let recorded = record_run(&mut history, "T", "low", start, start, "ok", None, 1, 0).unwrap();
    assert_eq!(recorded.pruned, [1, 2, 3, 4]);
    assert_eq!(history.rows().len(), 1);
}

#[test]
fn shorter_listing_is_the_start_of_a_longer_one() {
    let mut history = History::new();
    for secs in [5i64, 3, 9, 1, 7] {
        let start = Timestamp::new(secs, 0).unwrap();
        record_run(&mut history, "T", "low", start, start, "ok", None, 1, 50).unwrap();
    }
    let all: Vec<i64> = list_runs(&history, 50).unwrap().iter().map(|run| run.id).collect();
    assert_eq!(all, [3, 5, 1, 2, 4]);
    let two: Vec<i64> = list_runs(&history, 2).unwrap().iter().map(|run| run.id).collect();
    assert_eq!(two, all[..2]);
}

#[test]
fn other_statuses_count_in_the_total_only() {
    let mut history = History::new();
    let now = Utc::now();
    for status in ["ok", "OK", "skipped", "error"] {
        record(&mut history, "T", "low", now, now, status, None, 1, 50).unwrap();
    }
    assert_eq!(run_stats(&history), (4, 1, 1));
}

#[test]
fn pruning_cuts_the_listing_and_changes_nothing_else() {
    let mut roomy = History::new();
    let mut tight = History::new();
    for (i, secs) in [4i64, 8, 6, 8, 2].iter().enumerate() {
        let start = Timestamp::new(*secs, 0).unwrap();
        let max = if i == 4 { 3 } else { 50 };
        let text = format!("Task {i}");
        record_run(&mut roomy, &text, "low", start, start, "ok", None, 1, 50).unwrap();
        record_run(&mut tight, &text, "low", start, start, "ok", None, 1, max).unwrap();
    }
    let ids = |history: &History| -> Vec<i64> {
        list_runs(history, 50).unwrap().iter().map(|run| run.id).collect()
    };
    assert_eq!(ids(&roomy), [4, 2, 3, 1, 5]);
    assert_eq!(ids(&tight), [4, 2, 3]);
    assert_eq!(list_runs(&tight, 1).unwrap()[0].task_text, "Task 3");
}

#[test]
fn recorded_run_counts_once() {
    let mut history = History::new();
    let now = Utc::now();
    record(&mut history, "A", "low", now, now, "error", None, 1, 2).unwrap();
    assert_eq!(run_stats(&history), (1, 0, 1));
    record(&mut history, "B", "low", now, now, "ok", None, 1, 2).unwrap();
    assert_eq!(run_stats(&history), (2, 1, 1));
    record(&mut history, "C", "low", now, now, "ok", None, 1, 2).unwrap();
    assert_eq!(run_stats(&history), (2, 2, 0));
}
