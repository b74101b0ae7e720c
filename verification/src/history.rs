//! The run history: which rows it holds, in which order it lists them, and
//! which of them it lets go.

use crate::error::{ErrorView, StoreError};
use crate::output::truncate_output;
use crate::row::{RowView, RunRow};
use crate::text::is_same;
use vstd::prelude::*;
use vstd::string::*;
use vstd::utf8::*;

verus! {

/// The mathematical reading of a `History`: its rows, oldest id first, and the
/// largest id that was ever given out.
#[verifier::ext_equal]
pub struct HistoryView {
    pub rows: Seq<RowView>,
    pub last_id: int,
}

impl HistoryView {
    /// `row` put into `order` in front of the first row that it is newer than.
    pub open spec fn placed(order: Seq<RowView>, row: RowView) -> Seq<RowView>
        decreases order.len(),
    {
        if order.len() == 0 || row.newer_than(order[0]) {
            seq![row] + order
        } else {
            seq![order[0]] + Self::placed(order.drop_first(), row)
        }
    }

    /// All of `rows`, newest first.
    pub open spec fn sorted(rows: Seq<RowView>) -> Seq<RowView>
        decreases rows.len(),
    {
        if rows.len() == 0 {
            seq![]
        } else {
            Self::placed(Self::sorted(rows.drop_last()), rows.last())
        }
    }

    /// Whether the ids are distinct, ascend, and were all given out.
    pub open spec fn valid(self) -> bool {
        &&& forall|i: int, j: int|
            0 <= i < j < self.rows.len() ==> #[trigger] self.rows[i].id < #[trigger] self.rows[j].id
        &&& forall|i: int| 0 <= i < self.rows.len() ==> #[trigger] self.rows[i].id <= self.last_id
    }

    /// The newest `n` of `rows`, newest first; all of them where there are
    /// fewer.
    pub open spec fn newest(rows: Seq<RowView>, n: nat) -> Seq<RowView> {
        Self::sorted(rows).take(
            if n < rows.len() {
                n as int
            } else {
                rows.len() as int
            },
        )
    }

    /// Those of `rows` that are among their newest `keep`, in the order of
    /// `rows`.
    pub open spec fn kept(rows: Seq<RowView>, keep: nat) -> Seq<RowView> {
        rows.filter(|row: RowView| Self::newest(rows, keep).contains(row))
    }

    /// Those of `rows` that are not among their newest `keep`, in the order of
    /// `rows`.
    pub open spec fn dropped(rows: Seq<RowView>, keep: nat) -> Seq<RowView> {
        rows.filter(|row: RowView| !Self::newest(rows, keep).contains(row))
    }

    /// The newest `n` rows, newest first; all of them where there are fewer.
    pub open spec fn recent(self, n: nat) -> Seq<RowView> {
        Self::newest(self.rows, n)
    }

    /// The history with `row` added to it.
    pub open spec fn insert(self, row: RowView) -> HistoryView {
        HistoryView { rows: self.rows.push(row), last_id: row.id }
    }

    /// The history without the rows that are not among its newest `keep`.
    pub open spec fn prune(self, keep: nat) -> HistoryView {
        HistoryView { rows: Self::kept(self.rows, keep), last_id: self.last_id }
    }

    /// The history after `row` was recorded: the row is added, and of all rows
    /// the newest `max_history`, and at least one, are kept.
    pub open spec fn record(self, row: RowView, max_history: nat) -> HistoryView {
        self.insert(row).prune(Self::at_least_one(max_history))
    }

    /// A number of rows to keep or to list, where none counts as one.
    pub open spec fn at_least_one(n: nat) -> nat {
        if n < 1 {
            1
        } else {
            n
        }
    }

    /// The row that tells of a run and has the next free id.
    pub open spec fn next_row(
        self,
        task_text: Seq<char>,
        task_priority: Seq<char>,
        started_at: Seq<char>,
        finished_at: Seq<char>,
        status: Seq<char>,
        output: Option<&str>,
        duration_ms: int,
    ) -> RowView {
        RowView {
            id: self.last_id + 1,
            task_text,
            task_priority,
            started_at,
            finished_at,
            status,
            output: match output {
                Some(output) => Some(crate::output::bounded_output(output@)),
                None => None,
            },
            duration_ms: Some(duration_ms),
        }
    }

    /// The number of rows with the given status.
    pub open spec fn count_status(self, status: Seq<char>) -> nat {
        self.rows.filter(|row: RowView| row.status == status).len()
    }
}

/// The mathematical readings of stored rows.
pub open spec fn row_views(rows: Seq<RunRow>) -> Seq<RowView> {
    rows.map_values(|row: RunRow| row@)
}

/// The run history of a workspace.
pub struct History {
    rows: Vec<RunRow>,
    last_id: i64,
}

/// What the recording of a run changed in the history.
#[derive(Debug, Clone)]
pub struct Recorded {
    /// The row that was added.
    pub row: RunRow,
    /// The ids of the rows that were let go after that.
    pub pruned: Vec<i64>,
}

/// A row goes where everything in front of it is at least as new and what
/// follows is older.
proof fn lemma_placed_at(order: Seq<RowView>, row: RowView, p: int)
    requires
        0 <= p <= order.len(),
        forall|i: int| 0 <= i < p ==> !row.newer_than(#[trigger] order[i]),
        p < order.len() ==> row.newer_than(order[p]),
    ensures
        HistoryView::placed(order, row) == order.insert(p, row),
    decreases p,
{
    if p == 0 {
        assert(seq![row] + order =~= order.insert(0, row));
    } else {
        lemma_placed_at(order.drop_first(), row, p - 1);
        assert(seq![order[0]] + order.drop_first().insert(p - 1, row) =~= order.insert(p, row));
    }
}

/// The positions of `rows`, those of newer rows first.
fn newest_first(rows: &Vec<RunRow>) -> (order: Vec<usize>)
    ensures
        order@.len() == rows@.len(),
        order@.no_duplicates(),
        forall|i: int| 0 <= i < order@.len() ==> #[trigger] order@[i] < rows@.len(),
        order@.map_values(|k: usize| rows@[k as int]@) == HistoryView::sorted(row_views(rows@)),
{
    let ghost views = row_views(rows@);
    let mut order: Vec<usize> = Vec::new();
    let mut i: usize = 0;
    assert(order@.map_values(|k: usize| rows@[k as int]@) =~= HistoryView::sorted(views.take(0)));
    while i < rows.len()
        invariant
            i <= rows@.len(),
            views == row_views(rows@),
            order@.len() == i,
            order@.no_duplicates(),
            forall|j: int| 0 <= j < order@.len() ==> #[trigger] order@[j] < i,
            order@.map_values(|k: usize| rows@[k as int]@) == HistoryView::sorted(
                views.take(i as int),
            ),
        decreases rows@.len() - i,
    {
        let ghost before = order@.map_values(|k: usize| rows@[k as int]@);
        let mut p: usize = 0;
        while p < order.len() && !rows[i].is_newer_than(&rows[order[p]])
            invariant
                i < rows@.len(),
                p <= order@.len(),
                forall|j: int| 0 <= j < order@.len() ==> #[trigger] order@[j] < i,
                before == order@.map_values(|k: usize| rows@[k as int]@),
                forall|j: int| 0 <= j < p ==> !rows@[i as int]@.newer_than(#[trigger] before[j]),
            decreases order@.len() - p,
        {
            p += 1;
        }
        let ghost old_order = order@;
        order.insert(p, i);
        proof {
            lemma_placed_at(before, rows@[i as int]@, p as int);
            let longer = views.take(i + 1);
            assert(longer.drop_last() =~= views.take(i as int));
            assert(longer.last() == rows@[i as int]@);
            assert(order@.map_values(|k: usize| rows@[k as int]@) =~= before.insert(
                p as int,
                rows@[i as int]@,
            ));
        }
        i += 1;
    }
    assert(views.take(views.len() as int) =~= views);
    order
}

/// The ids of rows.
pub open spec fn row_ids(rows: Seq<RowView>) -> Seq<int> {
    rows.map_values(|row: RowView| row.id)
}

/// Which of `rows` are among their newest `keep`.
fn survivors(rows: &Vec<RunRow>, keep: usize) -> (flags: Vec<bool>)
    requires
        forall|i: int, j: int|
            0 <= i < j < rows@.len() ==> #[trigger] rows@[i].id < #[trigger] rows@[j].id,
    ensures
        flags@.len() == rows@.len(),
        forall|i: int|
            0 <= i < flags@.len() ==> #[trigger] flags@[i] == HistoryView::newest(
                row_views(rows@),
                keep as nat,
            ).contains(rows@[i]@),
{
    let order = newest_first(rows);
    let total: usize = rows.len();
    let count: usize = if keep < total {
        keep
    } else {
        total
    };
    let mut flags: Vec<bool> = vec![false; total];
    let mut k: usize = 0;
    while k < count
        invariant
            k <= count <= order@.len(),
            flags@.len() == rows@.len() == order@.len() == total,
            forall|i: int| 0 <= i < order@.len() ==> #[trigger] order@[i] < rows@.len(),
            forall|i: int|
                0 <= i < flags@.len() ==> #[trigger] flags@[i] == order@.take(k as int).contains(
                    i as usize,
                ),
        decreases count - k,
    {
        let ghost before = flags@;
        flags.set(order[k], true);
        assert(order@.take(k + 1) =~= order@.take(k as int).push(order@[k as int]));
        assert forall|i: int| 0 <= i < flags@.len() implies #[trigger] flags@[i] == order@.take(
            k + 1,
        ).contains(i as usize) by {
            assert(before[i] == order@.take(k as int).contains(i as usize));
            let longer = order@.take(k + 1);
            if order@.take(k as int).contains(i as usize) {
                let j = order@.take(k as int).index_of(i as usize);
                assert(longer[j] == i as usize);
            }
            if i == order@[k as int] {
                assert(longer[k as int] == i as usize);
            } else if longer.contains(i as usize) {
                let j = longer.index_of(i as usize);
                assert(order@.take(k as int)[j] == i as usize);
            }
        }
        k += 1;
    }
    proof {
        let views = row_views(rows@);
        let newest = HistoryView::newest(views, keep as nat);
        let taken = order@.take(count as int);
        let listed = order@.map_values(|k: usize| rows@[k as int]@);
        assert(newest == listed.take(count as int));
        assert forall|i: int| 0 <= i < flags@.len() implies #[trigger] flags@[i]
            == newest.contains(rows@[i]@) by {
            if taken.contains(i as usize) {
                let j = taken.index_of(i as usize);
                assert(newest[j] == rows@[i]@);
            }
            if newest.contains(rows@[i]@) {
                let j = newest.index_of(rows@[i]@);
                let m = order@[j] as int;
                assert(rows@[m]@ == rows@[i]@);
                assert(rows@[m].id == rows@[i].id);
                assert(m == i);
                assert(taken[j] == i as usize);
            }
        }
    }
    flags
}

/// Removes from `rows` all but the newest `keep` and returns the ids of the
/// rows that went.
fn prune(rows: &mut Vec<RunRow>, keep: usize) -> (pruned: Vec<i64>)
    requires
        forall|i: int, j: int|
            0 <= i < j < old(rows)@.len() ==> #[trigger] old(rows)@[i].id < #[trigger] old(
                rows,
            )@[j].id,
    ensures
        row_views(final(rows)@) == HistoryView::kept(row_views(old(rows)@), keep as nat),
        pruned@.map_values(|id: i64| id as int) == row_ids(
            HistoryView::dropped(row_views(old(rows)@), keep as nat),
        ),
{
    let flags = survivors(rows, keep);
    let ghost views = row_views(rows@);
    let ghost newest = HistoryView::newest(views, keep as nat);
    let ghost stays = |row: RowView| newest.contains(row);
    let ghost goes = |row: RowView| !newest.contains(row);
    let ghost original = rows@;
    let mut pruned: Vec<i64> = Vec::new();
    let mut at: usize = 0;
    let mut i: usize = 0;
    proof {
        assert(views.take(0) =~= Seq::<RowView>::empty());
        assert(row_views(rows@.take(0)) =~= views.take(0).filter(stays));
        assert(rows@.skip(0) =~= original.skip(0));
        assert(row_ids(views.take(0).filter(goes)) =~= pruned@.map_values(|id: i64| id as int));
    }
    while i < flags.len()
        invariant
            at <= i <= flags@.len(),
            flags@.len() == original.len(),
            views == row_views(original),
            stays == (|row: RowView| newest.contains(row)),
            goes == (|row: RowView| !newest.contains(row)),
            forall|j: int|
                0 <= j < flags@.len() ==> #[trigger] flags@[j] == newest.contains(original[j]@),
            rows@.len() == at + (original.len() - i),
            rows@.skip(at as int) == original.skip(i as int),
            row_views(rows@.take(at as int)) == views.take(i as int).filter(stays),
            pruned@.map_values(|id: i64| id as int) == row_ids(views.take(i as int).filter(goes)),
        decreases flags@.len() - i,
    {
        let ghost shorter = views.take(i as int);
        let ghost longer = views.take(i + 1);
        let ghost before = rows@;
        proof {
            assert(longer.drop_last() =~= shorter);
            assert(longer.last() == original[i as int]@);
            reveal_with_fuel(Seq::filter, 2);
            assert(rows@.skip(at as int)[0] == original.skip(i as int)[0]);
            assert(flags@[i as int] == newest.contains(original[i as int]@));
        }
        if flags[i] {
            at += 1;
            proof {
                assert(rows@.skip(at as int) =~= before.skip(at - 1).skip(1));
                assert(original.skip(i + 1) =~= original.skip(i as int).skip(1));
                assert(row_views(rows@.take(at as int)) =~= row_views(before.take(at - 1)).push(
                    original[i as int]@,
                ));
                assert(longer.filter(goes) =~= shorter.filter(goes));
            }
        } else {
            let ghost pruned_before = pruned@.map_values(|id: i64| id as int);
            let gone = rows.remove(at);
            pruned.push(gone.id);
            proof {
                assert(rows@.skip(at as int) =~= before.skip(at as int).skip(1));
                assert(original.skip(i + 1) =~= original.skip(i as int).skip(1));
                assert(rows@.take(at as int) =~= before.take(at as int));
                assert(longer.filter(goes) =~= shorter.filter(goes).push(original[i as int]@));
                assert(longer.filter(stays) =~= shorter.filter(stays));
                assert(row_ids(longer.filter(goes)) =~= row_ids(shorter.filter(goes)).push(
                    original[i as int]@.id,
                ));
                assert(pruned@.map_values(|id: i64| id as int) =~= pruned_before.push(
                    gone.id as int,
                ));
            }
        }
        i += 1;
    }
    proof {
        assert(views.take(i as int) =~= views);
        assert(rows@.take(at as int) =~= rows@);
    }
    pruned
}

/// Leaving rows out keeps the ids ascending.
pub(crate) proof fn lemma_filter_ascends(rows: Seq<RowView>, stays: spec_fn(RowView) -> bool)
    requires
        forall|i: int, j: int|
            0 <= i < j < rows.len() ==> #[trigger] rows[i].id < #[trigger] rows[j].id,
    ensures
        forall|i: int, j: int|
            0 <= i < j < rows.filter(stays).len() ==> #[trigger] rows.filter(stays)[i].id
                < #[trigger] rows.filter(stays)[j].id,
        forall|i: int|
            0 <= i < rows.filter(stays).len() ==> rows.contains(#[trigger] rows.filter(stays)[i]),
    decreases rows.len(),
{
    reveal_with_fuel(Seq::filter, 2);
    if rows.len() > 0 {
        let rest = rows.drop_last();
        lemma_filter_ascends(rest, stays);
        let filtered = rows.filter(stays);
        let filtered_rest = rest.filter(stays);
        assert forall|i: int| 0 <= i < filtered.len() implies rows.contains(
            #[trigger] filtered[i],
        ) by {
            if i < filtered_rest.len() {
                assert(rest.contains(filtered_rest[i]));
                let k = rest.index_of(filtered_rest[i]);
                assert(rows[k] == filtered[i]);
            } else {
                assert(rows[rows.len() - 1] == filtered[i]);
            }
        }
        assert forall|i: int, j: int| 0 <= i < j < filtered.len() implies #[trigger] filtered[i].id
            < #[trigger] filtered[j].id by {
            assert(rest.contains(filtered_rest[i]));
            let k = rest.index_of(filtered_rest[i]);
            assert(rows[k].id < rows[rows.len() - 1].id);
            if j < filtered_rest.len() {
                assert(filtered_rest[i].id < filtered_rest[j].id);
            }
        }
    }
}

/// A history stays valid when a row with a fresh id is added, and when rows
/// are let go.
pub proof fn law_history_stays_valid(history: HistoryView, row: RowView, keep: nat)
    requires
        history.valid(),
        row.id > history.last_id,
    ensures
        history.insert(row).valid(),
        history.prune(keep).valid(),
        history.record(row, keep).valid(),
{
    let inserted = history.insert(row);
    assert(inserted.valid());
    let kept = HistoryView::at_least_one(keep);
    lemma_filter_ascends(
        history.rows,
        |row: RowView| HistoryView::newest(history.rows, keep).contains(row),
    );
    lemma_filter_ascends(
        inserted.rows,
        |row: RowView| HistoryView::newest(inserted.rows, kept).contains(row),
    );
    assert forall|i: int| 0 <= i < history.prune(keep).rows.len() implies
        #[trigger] history.prune(keep).rows[i].id <= history.last_id by {
        assert(history.rows.contains(history.prune(keep).rows[i]));
    }
    assert forall|i: int| 0 <= i < inserted.prune(kept).rows.len() implies
        #[trigger] inserted.prune(kept).rows[i].id <= inserted.last_id by {
        assert(inserted.rows.contains(inserted.prune(kept).rows[i]));
    }
}

/// What a record leaves and what it reports, given the ids that pruning
/// returned.
proof fn lemma_recorded(history: HistoryView, row: RowView, max_history: nat, pruned: Seq<i64>)
    requires
        history.valid(),
        row.id > history.last_id,
        pruned.map_values(|id: i64| id as int) == row_ids(
            HistoryView::dropped(
                history.insert(row).rows,
                HistoryView::at_least_one(max_history),
            ),
        ),
    ensures
        ({
            let before = history.rows.push(row);
            let after = history.record(row, max_history).rows;
            &&& history.record(row, max_history).last_id == row.id
            &&& max_history == 0 ==> after.len() == 1
            &&& 1 <= max_history < before.len() ==> after.len() == max_history
            &&& max_history >= before.len() ==> after == before
            &&& forall|i: int| 0 <= i < after.len() ==> before.contains(#[trigger] after[i])
            &&& forall|x: RowView, y: RowView| #[trigger]
                after.contains(x) && #[trigger] before.contains(y) && !after.contains(y) ==> {
                    ||| crate::text::text_before(y.started_at, x.started_at)
                    ||| x.started_at == y.started_at && x.id > y.id
                }
            &&& forall|id: i64| #[trigger]
                pruned.contains(id) <==> {
                    &&& exists|i: int| 0 <= i < before.len() && #[trigger] before[i].id == id
                    &&& forall|j: int| 0 <= j < after.len() ==> #[trigger] after[j].id != id
                }
            &&& pruned.no_duplicates()
        }),
{
    let before = history.rows.push(row);
    let after = history.record(row, max_history).rows;
    let reported = pruned.map_values(|id: i64| id as int);
    crate::laws::law_record_leaves_as_many_rows_as_allowed(history, row, max_history);
    crate::laws::law_record_lets_the_oldest_go(history, row, max_history);
    crate::laws::law_reported_ids_are_those_of_the_rows_that_went(history, row, max_history);
    assert forall|id: i64| #[trigger] pruned.contains(id) <==> {
        &&& exists|i: int| 0 <= i < before.len() && #[trigger] before[i].id == id
        &&& forall|j: int| 0 <= j < after.len() ==> #[trigger] after[j].id != id
    } by {
        assert(pruned.contains(id) <==> reported.contains(id as int)) by {
            if pruned.contains(id) {
                assert(reported[pruned.index_of(id)] == id);
            }
            if reported.contains(id as int) {
                assert(pruned[reported.index_of(id as int)] == id);
            }
        }
        if exists|i: int| 0 <= i < before.len() && #[trigger] before[i].id == id {
            let i = choose|i: int| 0 <= i < before.len() && #[trigger] before[i].id == id;
            if i < history.rows.len() {
                assert(history.rows[i].id == id);
            }
        }
        if id == row.id {
            assert(before[history.rows.len() as int].id == id);
        }
        if exists|i: int| 0 <= i < history.rows.len() && #[trigger] history.rows[i].id == id {
            let i = choose|i: int|
                0 <= i < history.rows.len() && #[trigger] history.rows[i].id == id;
            assert(before[i].id == id);
        }
    }
    assert forall|i: int, j: int|
        0 <= i < pruned.len() && 0 <= j < pruned.len() && i != j implies pruned[i]
        != pruned[j] by {
        if i < j {
            assert(reported[i] < reported[j]);
        } else {
            assert(reported[j] < reported[i]);
        }
    }
}

impl View for History {
    type V = HistoryView;

    closed spec fn view(&self) -> HistoryView {
        HistoryView { rows: row_views(self.rows@), last_id: self.last_id as int }
    }
}

impl History {
    #[verifier::type_invariant]
    closed spec fn holds_valid(self) -> bool {
        self@.valid()
    }

    /// A history without rows, which has given out no id yet.
    pub fn new() -> (history: History)
        ensures
            history@ == (HistoryView { rows: Seq::<RowView>::empty(), last_id: 0 }),
            history@.valid(),
            history@.rows.len() == 0,
    {
        let history = History { rows: Vec::new(), last_id: 0 };
        assert(history@.rows =~= Seq::<RowView>::empty());
        history
    }

    /// The history with these rows, if their ids ascend. No id up to the last
    /// of theirs, nor up to `last_id`, is given out again.
    pub fn from_rows(rows: Vec<RunRow>, last_id: i64) -> (loaded: Option<History>)
        ensures
            match loaded {
                Some(history) => {
                    &&& history@.valid()
                    &&& history@.rows == row_views(rows@)
                    &&& history@.last_id == if rows@.len() > 0 && rows@.last().id > last_id {
                        rows@.last().id
                    } else {
                        last_id
                    }
                },
                None => exists|i: int, j: int|
                    0 <= i < j < rows@.len() && #[trigger] rows@[i].id >= #[trigger] rows@[j].id,
            },
            loaded is Some <==> forall|i: int, j: int|
                0 <= i < j < rows@.len() ==> #[trigger] rows@[i].id < #[trigger] rows@[j].id,
            loaded matches Some(history) ==> {
                &&& history@.rows.len() == rows@.len()
                &&& forall|i: int|
                    0 <= i < rows@.len() ==> #[trigger] history@.rows[i] == rows@[i]@
            },
    {
        let mut last_id = last_id;
        let mut i: usize = 1;
        while i < rows.len()
            invariant
                1 <= i,
                i <= rows@.len() || rows@.len() == 0,
                forall|j: int, k: int|
                    0 <= j < k < i && k < rows@.len() ==> #[trigger] rows@[j].id
                        < #[trigger] rows@[k].id,
            decreases rows@.len() - i,
        {
            if rows[i - 1].id >= rows[i].id {
                return None;
            }
            i += 1;
        }
        if rows.len() > 0 && rows[rows.len() - 1].id > last_id {
            last_id = rows[rows.len() - 1].id;
        }
        Some(History { rows, last_id })
    }

    /// The rows, oldest id first.
    pub fn rows(&self) -> (rows: &Vec<RunRow>)
        ensures
            row_views(rows@) == self@.rows,
            self@.valid(),
            rows@.len() == self@.rows.len(),
            forall|i: int| 0 <= i < rows@.len() ==> #[trigger] self@.rows[i] == rows@[i]@,
    {
        proof {
            use_type_invariant(self);
        }
        &self.rows
    }

    /// The largest id that was ever given out.
    pub fn last_id(&self) -> (last_id: i64)
        ensures
            last_id == self@.last_id,
            self@.valid(),
    {
        proof {
            use_type_invariant(self);
        }
        self.last_id
    }

    /// The newest `limit` rows, newest first.
    pub fn recent(&self, limit: usize) -> (rows: Vec<&RunRow>)
        ensures
            rows@.map_values(|row: &RunRow| row@) == self@.recent(limit as nat),
            limit <= self@.rows.len() ==> rows@.len() == limit,
            limit > self@.rows.len() ==> rows@.len() == self@.rows.len(),
            forall|i: int| 0 <= i < rows@.len() ==> self@.rows.contains((#[trigger] rows@[i])@),
            forall|i: int, j: int|
                0 <= i < j < rows@.len() ==> {
                    let a = (#[trigger] rows@[i])@;
                    let b = (#[trigger] rows@[j])@;
                    ||| crate::text::text_before(b.started_at, a.started_at)
                    ||| a.started_at == b.started_at && a.id > b.id
                },
            forall|i: int, y: RowView|
                0 <= i < rows@.len() && #[trigger] self@.rows.contains(y) && (forall|j: int|
                    0 <= j < rows@.len() ==> (#[trigger] rows@[j])@ != y) ==> {
                    let x = (#[trigger] rows@[i])@;
                    ||| crate::text::text_before(y.started_at, x.started_at)
                    ||| x.started_at == y.started_at && x.id > y.id
                },
    {
        proof {
            use_type_invariant(self);
            crate::laws::law_listing_shows_latest_starts_first(self@, limit as nat);
        }
        let order = newest_first(&self.rows);
        let total: usize = self.rows.len();
        let count: usize = if limit < total {
            limit
        } else {
            total
        };
        let ghost listed = HistoryView::sorted(row_views(self.rows@));
        let mut rows: Vec<&RunRow> = Vec::new();
        let mut i: usize = 0;
        while i < count
            invariant
                i <= count <= order@.len(),
                order@.map_values(|k: usize| self.rows@[k as int]@) == listed,
                forall|j: int| 0 <= j < order@.len() ==> #[trigger] order@[j] < self.rows@.len(),
                rows@.map_values(|row: &RunRow| row@) == listed.take(i as int),
            decreases count - i,
        {
            let ghost before = rows@.map_values(|row: &RunRow| row@);
            rows.push(&self.rows[order[i]]);
            assert(order@.map_values(|k: usize| self.rows@[k as int]@)[i as int] == listed[i as int]);
            assert(rows@.map_values(|row: &RunRow| row@) =~= before.push(listed[i as int]));
            assert(listed.take(i + 1) =~= listed.take(i as int).push(listed[i as int]));
            i += 1;
        }
        proof {
            let listing = self@.recent(limit as nat);
            assert forall|j: int| 0 <= j < rows@.len() implies (#[trigger] rows@[j])@
                == listing[j] by {
                assert(rows@.map_values(|row: &RunRow| row@)[j] == rows@[j]@);
            }
            assert forall|k: int, y: RowView|
                0 <= k < rows@.len() && #[trigger] self@.rows.contains(y) && (forall|j: int|
                    0 <= j < rows@.len() ==> (#[trigger] rows@[j])@ != y) implies {
                let x = (#[trigger] rows@[k])@;
                ||| crate::text::text_before(y.started_at, x.started_at)
                ||| x.started_at == y.started_at && x.id > y.id
            } by {
                assert(rows@[k]@ == listing[k]);
                if listing.contains(y) {
                    assert(rows@[listing.index_of(y)]@ == y);
                }
            }
        }
        rows
    }

    /// The number of rows with the given status.
    pub fn count_status(&self, status: &str) -> (count: usize)
        ensures
            count == self@.count_status(status@),
            count <= self@.rows.len(),
            count == Set::new(
                |i: int| 0 <= i < self@.rows.len() && self@.rows[i].status == status@,
            ).len(),
    {
        proof {
            crate::laws::law_count_is_the_number_of_positions(self@, status@);
        }
        let ghost views = row_views(self.rows@);
        let ghost counted = |row: RowView| row.status == status@;
        let mut count: usize = 0;
        let mut i: usize = 0;
        assert(views.take(0).filter(counted).len() == 0);
        while i < self.rows.len()
            invariant
                count <= i <= self.rows@.len(),
                views == row_views(self.rows@),
                counted == (|row: RowView| row.status == status@),
                count == views.take(i as int).filter(counted).len(),
            decreases self.rows@.len() - i,
        {
            let ghost longer = views.take(i + 1);
            proof {
                assert(longer.drop_last() =~= views.take(i as int));
                assert(longer.last() == self.rows@[i as int]@);
                reveal_with_fuel(Seq::filter, 2);
            }
            if is_same(self.rows[i].status.as_str(), status) {
                count += 1;
            }
            i += 1;
        }
        assert(views.take(i as int) =~= views);
        count
    }

    /// Adds a row that tells of a run, with its times given as texts, then
    /// lets go of all but the newest `max_history` rows, of which there is at
    /// least one. Long output is cut as `truncate_output` does.
    pub fn record_row(
        &mut self,
        task_text: &str,
        task_priority: &str,
        started_at: &str,
        finished_at: &str,
        status: &str,
        output: Option<&str>,
        duration_ms: i64,
        max_history: u32,
    ) -> (recorded: Result<Recorded, StoreError>)
        ensures
            final(self)@.valid(),
            match recorded {
                Ok(recorded) => {
                    let keep = HistoryView::at_least_one(max_history as nat);
                    &&& old(self)@.last_id < i64::MAX
                    &&& recorded.row@ == old(self)@.next_row(
                        task_text@,
                        task_priority@,
                        started_at@,
                        finished_at@,
                        status@,
                        output,
                        duration_ms as int,
                    )
                    &&& final(self)@ == old(self)@.record(recorded.row@, max_history as nat)
                    &&& recorded.pruned@.map_values(|id: i64| id as int) == row_ids(
                        HistoryView::dropped(old(self)@.insert(recorded.row@).rows, keep),
                    )
                },
                Err(error) => {
                    &&& old(self)@.last_id == i64::MAX
                    &&& error@ == ErrorView::IdsExhausted
                    &&& final(self)@ == old(self)@
                },
            },
            recorded is Ok <==> old(self)@.last_id < i64::MAX,
            recorded matches Err(error) ==> error is IdsExhausted && final(self)@ == old(self)@,
            recorded matches Ok(recorded) ==> {
                &&& recorded.row.id == old(self)@.last_id + 1
                &&& recorded.row.task_text@ == task_text@
                &&& recorded.row.task_priority@ == task_priority@
                &&& recorded.row.started_at@ == started_at@
                &&& recorded.row.finished_at@ == finished_at@
                &&& recorded.row.status@ == status@
                &&& recorded.row.duration_ms == Some(duration_ms)
                &&& recorded.row.output is Some <==> output is Some
                &&& output matches Some(output) ==> {
                    &&& encode_utf8(output@).len() <= 16384 ==> recorded.row.output->0@ == output@
                    &&& encode_utf8(output@).len() > 16384 ==> exists|k: int|
                        {
                            &&& 0 <= k < output@.len()
                            &&& recorded.row.output->0@ == #[trigger] output@.take(k)
                                + "\n...[truncated]"@
                            &&& encode_utf8(output@.take(k)).len() + 15 <= 16384
                            &&& encode_utf8(output@.take(k + 1)).len() + 15 > 16384
                        }
                }
            },
            recorded matches Ok(recorded) ==> {
                let before = old(self)@.rows.push(recorded.row@);
                let after = final(self)@.rows;
                &&& final(self)@.last_id == recorded.row.id
                &&& max_history == 0 ==> after.len() == 1
                &&& 1 <= max_history < before.len() ==> after.len() == max_history
                &&& max_history >= before.len() ==> after == before
                &&& forall|i: int| 0 <= i < after.len() ==> before.contains(#[trigger] after[i])
                &&& forall|x: RowView, y: RowView| #[trigger]
                    after.contains(x) && #[trigger] before.contains(y) && !after.contains(y) ==> {
                        ||| crate::text::text_before(y.started_at, x.started_at)
                        ||| x.started_at == y.started_at && x.id > y.id
                    }
                &&& forall|id: i64| #[trigger]
                    recorded.pruned@.contains(id) <==> {
                        &&& exists|i: int| 0 <= i < before.len() && #[trigger] before[i].id == id
                        &&& forall|j: int| 0 <= j < after.len() ==> #[trigger] after[j].id != id
                    }
                &&& recorded.pruned@.no_duplicates()
            },
    {
        proof {
            use_type_invariant(&*self);
        }
        if self.last_id == i64::MAX {
            return Err(StoreError::IdsExhausted);
        }
        let id: i64 = self.last_id + 1;
        let row = RunRow {
            id,
            task_text: task_text.to_owned(),
            task_priority: task_priority.to_owned(),
            started_at: started_at.to_owned(),
            finished_at: finished_at.to_owned(),
            status: status.to_owned(),
            output: match output {
                Some(output) => Some(truncate_output(output)),
                None => None,
            },
            duration_ms: Some(duration_ms),
        };
        let keep: usize = if max_history < 1 {
            1
        } else {
            max_history as usize
        };
        let ghost before = self@;
        let ghost view = row@;
        let mut rows: Vec<RunRow> = Vec::new();
        std::mem::swap(&mut rows, &mut self.rows);
        rows.push(row.copy());
        proof {
            law_history_stays_valid(before, view, max_history as nat);
            assert(row_views(rows@) =~= before.insert(view).rows);
            assert forall|i: int, j: int| 0 <= i < j < rows@.len() implies #[trigger] rows@[i].id
                < #[trigger] rows@[j].id by {
                assert(before.insert(view).rows[i].id < before.insert(view).rows[j].id);
            }
        }
        let pruned = prune(&mut rows, keep);
        *self = History { rows, last_id: id };
        proof {
            lemma_recorded(before, view, max_history as nat, pruned@);
        }
        Ok(Recorded { row, pruned })
    }
}

} // verus!
