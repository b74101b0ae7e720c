use heartbeat_store::store::decode_runs;
use heartbeat_store::{
    decode_run, list_runs, record_run, History, RunRow, StoreError, Timestamp,
};

fn row(id: i64, started_at: &str) -> RunRow {
    RunRow {
        id,
        task_text: "Task".to_string(),
        task_priority: "low".to_string(),
        started_at: started_at.to_string(),
        finished_at: "2024-01-01T00:00:01+00:00".to_string(),
        status: "ok".to_string(),
        output: Some("out".to_string()),
        duration_ms: Some(5),
    }
}

#[test]
fn limit_beyond_a_row_count_is_refused() {
    let history = History::new();
    assert_eq!(list_runs(&history, usize::MAX).unwrap_err(), StoreError::LimitOverflow);
    assert!(list_runs(&history, usize::MAX / 2).unwrap().is_empty());
}

#[test]
fn unreadable_start_fails_the_listing() {
    let rows = vec![row(1, "2024-01-01T00:00:00+00:00"), row(2, "yesterday")];
    let history = History::from_rows(rows, 0).unwrap();
    let error = list_runs(&history, 10).unwrap_err();
    assert_eq!(error, StoreError::InvalidTimestamp { raw: "yesterday".to_string() });
    assert_eq!(error.message(), "Invalid RFC3339 timestamp in heartbeat DB: yesterday");
}

#[test]
fn unreadable_row_past_the_limit_is_not_looked_at() {
    let rows = vec![row(1, "2024-01-01T00:00:00+00:00"), row(2, "1024 was long ago")];
    let history = History::from_rows(rows, 0).unwrap();
    assert_eq!(list_runs(&history, 1).unwrap()[0].id, 1);
    assert!(list_runs(&history, 2).is_err());
}

#[test]
fn unreadable_finish_fails_the_listing() {
    let mut bad = row(1, "2024-01-01T00:00:00+00:00");
    bad.finished_at = "later".to_string();
    let history = History::from_rows(vec![bad], 0).unwrap();
    assert_eq!(
        list_runs(&history, 1).unwrap_err(),
        StoreError::InvalidTimestamp { raw: "later".to_string() }
    );
}

#[test]
fn missing_duration_fails_the_listing() {
    let mut bad = row(1, "2024-01-01T00:00:00+00:00");
    bad.duration_ms = None;
    let history = History::from_rows(vec![bad], 0).unwrap();
    let error = list_runs(&history, 1).unwrap_err();
    assert_eq!(error, StoreError::MissingDuration);
    assert_eq!(error.message(), "Invalid column type Null at index: 7, name: duration_ms");
}

#[test]
fn first_failure_in_listing_order_is_reported() {
    let rows = vec![row(1, "zz"), row(2, "aa"), row(3, "yy")];
    let history = History::from_rows(rows, 0).unwrap();
    assert_eq!(
        list_runs(&history, 3).unwrap_err(),
        StoreError::InvalidTimestamp { raw: "zz".to_string() }
    );
}

#[test]
fn texts_sort_by_their_bytes() {
    let rows = vec![row(1, "é"), row(2, "z"), row(3, ""), row(4, "zz"), row(5, "日")];
    let history = History::from_rows(rows, 0).unwrap();
    let ids: Vec<i64> = history.recent(5).iter().map(|row| row.id).collect();
    assert_eq!(ids, [5, 1, 4, 2, 3]);
}

#[test]
fn offsets_are_read_but_rows_sort_by_text() {
    let rows =
        vec![row(1, "2024-01-01T10:00:00+09:00"), row(2, "2024-01-01T02:00:00+00:00")];
    let history = History::from_rows(rows, 0).unwrap();
    let runs = list_runs(&history, 2).unwrap();
    assert_eq!(runs[0].id, 1);
    assert_eq!(runs[0].started_at.secs(), 1_704_070_800);
    assert_eq!(runs[1].started_at.secs(), 1_704_074_400);
}

#[test]
fn rows_must_come_in_order_of_their_ids() {
    assert!(History::from_rows(vec![row(2, "a"), row(1, "b")], 0).is_none());
    assert!(History::from_rows(vec![row(2, "a"), row(2, "b")], 0).is_none());
    assert!(History::from_rows(vec![row(-3, "a"), row(7, "b")], 0).is_some());
}

#[test]
fn ids_are_not_given_out_again() {
    let start = Timestamp::new(0, 0).unwrap();
    let mut loaded = History::from_rows(vec![row(4, "a")], 9).unwrap();
    let recorded = record_run(&mut loaded, "T", "low", start, start, "ok", None, 1, 5).unwrap();
    assert_eq!(recorded.row.id, 10);

    let mut stale = History::from_rows(vec![row(4, "a")], 2).unwrap();
    let recorded = record_run(&mut stale, "T", "low", start, start, "ok", None, 1, 5).unwrap();
    assert_eq!(recorded.row.id, 5);
}

#[test]
fn largest_id_ends_the_recording() {
    let start = Timestamp::new(0, 0).unwrap();
    let mut history = History::from_rows(vec![row(1, "a")], i64::MAX).unwrap();
    let error = record_run(&mut history, "T", "low", start, start, "ok", None, 1, 5).unwrap_err();
    assert_eq!(error, StoreError::IdsExhausted);
    assert_eq!(error.message(), "Failed to insert heartbeat run");
    assert_eq!(history.rows().len(), 1);
}

#[test]
fn row_decodes_with_the_times_that_were_read() {
    let start = Timestamp::new(10, 0).unwrap();
    let end = Timestamp::new(20, 0).unwrap();
    let stored = row(3, "s");
    let run = decode_run(&stored, Some(start), Some(end)).unwrap();
    assert_eq!((run.id, run.started_at, run.finished_at), (3, start, end));
    assert_eq!(
        decode_run(&stored, None, None).unwrap_err(),
        StoreError::InvalidTimestamp { raw: "s".to_string() }
    );
    assert_eq!(
        decode_run(&stored, Some(start), None).unwrap_err(),
        StoreError::InvalidTimestamp { raw: "2024-01-01T00:00:01+00:00".to_string() }
    );
}

#[test]
fn rows_decode_up_to_the_first_failure() {
    let moment = Timestamp::new(10, 0).unwrap();
    let (a, b) = (row(1, "a"), row(2, "b"));
    let rows = vec![&a, &b];
    let read = vec![(Some(moment), Some(moment)), (Some(moment), Some(moment))];
    assert_eq!(decode_runs(&rows, &read).unwrap().len(), 2);
    let half = vec![(Some(moment), Some(moment)), (None, Some(moment))];
    assert_eq!(
        decode_runs(&rows, &half).unwrap_err(),
        StoreError::InvalidTimestamp { raw: "b".to_string() }
    );
}

#[test]
fn limit_overflow_has_a_sentence() {
    assert_eq!(StoreError::LimitOverflow.message(), "Run history limit overflow");
}
