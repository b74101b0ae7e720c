//! What holds of the run history as a whole.

use crate::error::{ErrorView, StoreError};
use crate::history::HistoryView;
use crate::row::{HeartbeatRun, RowView, RunRow, RunView};
use crate::timestamp::{rfc3339_instant, Instant};
use vstd::prelude::*;
use vstd::utf8::*;

verus! {

/// The order of rows is strict, it is transitive, and it tells any two rows
/// with different ids apart.
pub proof fn law_row_order_is_total(a: RowView, b: RowView, c: RowView)
    ensures
        !(a.newer_than(b) && b.newer_than(a)),
        a.id != b.id ==> a.newer_than(b) || b.newer_than(a),
        a.newer_than(b) && b.newer_than(c) ==> a.newer_than(c),
{
    crate::text::law_text_order_is_total(a.started_at, b.started_at, c.started_at);
    crate::text::law_text_order_is_total(b.started_at, a.started_at, a.started_at);
    crate::text::law_text_order_is_total(c.started_at, b.started_at, a.started_at);
}

/// Whether each row of `order` is newer than all that follow it.
pub open spec fn newest_come_first(order: Seq<RowView>) -> bool {
    forall|i: int, j: int|
        0 <= i < j < order.len() ==> (#[trigger] order[i]).newer_than(#[trigger] order[j])
}

/// Placing a row adds the row and nothing else, and keeps the order.
proof fn lemma_placed(order: Seq<RowView>, row: RowView)
    requires
        newest_come_first(order),
        forall|i: int| 0 <= i < order.len() ==> (#[trigger] order[i]).id != row.id,
    ensures
        HistoryView::placed(order, row).len() == order.len() + 1,
        forall|x: RowView| #[trigger]
            HistoryView::placed(order, row).contains(x) <==> x == row || order.contains(x),
        newest_come_first(HistoryView::placed(order, row)),
    decreases order.len(),
{
    let placed = HistoryView::placed(order, row);
    if order.len() == 0 || row.newer_than(order[0]) {
        assert forall|x: RowView| #[trigger] placed.contains(x) <==> x == row || order.contains(
            x,
        ) by {
            assert(placed[0] == row);
            if order.contains(x) {
                let k = order.index_of(x);
                assert(placed[k + 1] == x);
            }
            if placed.contains(x) && x != row {
                let k = placed.index_of(x);
                assert(order[k - 1] == x);
            }
        }
        assert forall|i: int, j: int| 0 <= i < j < placed.len() implies (
        #[trigger] placed[i]).newer_than(#[trigger] placed[j]) by {
            if i == 0 {
                law_row_order_is_total(row, order[0], order[j - 1]);
            } else {
                assert(order[i - 1].newer_than(order[j - 1]));
            }
        }
    } else {
        let rest = order.drop_first();
        let placed_rest = HistoryView::placed(rest, row);
        lemma_placed(rest, row);
        assert(placed =~= seq![order[0]] + placed_rest);
        assert forall|x: RowView| #[trigger] placed.contains(x) <==> x == row || order.contains(
            x,
        ) by {
            assert(placed_rest.contains(x) <==> x == row || rest.contains(x));
            if placed_rest.contains(x) {
                assert(placed[placed_rest.index_of(x) + 1] == x);
            }
            if order.contains(x) {
                let k = order.index_of(x);
                if k == 0 {
                    assert(placed[0] == x);
                } else {
                    assert(rest[k - 1] == x);
                }
            }
            if rest.contains(x) {
                assert(order[rest.index_of(x) + 1] == x);
            }
            if placed.contains(x) {
                let k = placed.index_of(x);
                if k > 0 {
                    assert(placed_rest[k - 1] == x);
                } else {
                    assert(order[0] == x);
                }
            }
        }
        assert forall|i: int, j: int| 0 <= i < j < placed.len() implies (
        #[trigger] placed[i]).newer_than(#[trigger] placed[j]) by {
            if i == 0 {
                let x = placed_rest[j - 1];
                assert(placed_rest.contains(x));
                if x == row {
                    law_row_order_is_total(row, order[0], row);
                } else {
                    let k = rest.index_of(x);
                    assert(order[k + 1] == x);
                }
            } else {
                assert(placed_rest[i - 1].newer_than(placed_rest[j - 1]));
            }
        }
    }
}

/// Whether the ids of `rows` ascend.
pub open spec fn ids_ascend(rows: Seq<RowView>) -> bool {
    forall|i: int, j: int| 0 <= i < j < rows.len() ==> #[trigger] rows[i].id < #[trigger] rows[j].id
}

/// Sorting puts the rows in order and neither adds nor loses one.
proof fn lemma_sorted(rows: Seq<RowView>)
    requires
        ids_ascend(rows),
    ensures
        HistoryView::sorted(rows).len() == rows.len(),
        forall|x: RowView| #[trigger] HistoryView::sorted(rows).contains(x) <==> rows.contains(x),
        newest_come_first(HistoryView::sorted(rows)),
    decreases rows.len(),
{
    if rows.len() > 0 {
        let rest = rows.drop_last();
        lemma_sorted(rest);
        let order = HistoryView::sorted(rest);
        assert forall|i: int| 0 <= i < order.len() implies (#[trigger] order[i]).id
            != rows.last().id by {
            assert(order.contains(order[i]));
            let k = rest.index_of(order[i]);
            assert(rows[k].id < rows[rows.len() - 1].id);
        }
        lemma_placed(order, rows.last());
        assert forall|x: RowView| #[trigger] HistoryView::sorted(rows).contains(x)
            <==> rows.contains(x) by {
            assert(order.contains(x) <==> rest.contains(x));
            if rest.contains(x) {
                assert(rows[rest.index_of(x)] == x);
            }
            if rows.contains(x) {
                let k = rows.index_of(x);
                if k < rest.len() {
                    assert(rest[k] == x);
                }
            }
            assert(rows[rows.len() - 1] == rows.last());
        }
    }
}

/// Whether `listing` holds the newest `n` of `rows`, newest first: as many as
/// there are up to `n`, each one newer than those that follow it and than
/// those that are left out.
pub open spec fn is_listing(rows: Seq<RowView>, n: nat, listing: Seq<RowView>) -> bool {
    &&& listing.len() == if n < rows.len() {
        n
    } else {
        rows.len()
    }
    &&& newest_come_first(listing)
    &&& forall|i: int| 0 <= i < listing.len() ==> rows.contains(#[trigger] listing[i])
    &&& forall|i: int, x: RowView|
        0 <= i < listing.len() && #[trigger] rows.contains(x) && !listing.contains(x) ==> (
        #[trigger] listing[i]).newer_than(x)
}

/// The most recent rows come first, and no row that is left out is newer than
/// one that is listed.
pub proof fn law_recent_lists_the_newest(history: HistoryView, n: nat)
    requires
        history.valid(),
    ensures
        is_listing(history.rows, n, history.recent(n)),
{
    let rows = history.rows;
    let order = HistoryView::sorted(rows);
    let listing = history.recent(n);
    lemma_sorted(rows);
    assert forall|i: int| 0 <= i < listing.len() implies rows.contains(#[trigger] listing[i]) by {
        assert(order.contains(order[i]));
    }
    assert forall|i: int, x: RowView|
        0 <= i < listing.len() && #[trigger] rows.contains(x) && !listing.contains(x) implies (
    #[trigger] listing[i]).newer_than(x) by {
        assert(order.contains(x));
        let k = order.index_of(x);
        if k < listing.len() {
            assert(listing[k] == x);
        }
        assert(order[i].newer_than(order[k]));
    }
}

/// Two listings of the same rows agree.
proof fn lemma_listings_agree(rows: Seq<RowView>, n: nat, a: Seq<RowView>, b: Seq<RowView>, k: int)
    requires
        ids_ascend(rows),
        is_listing(rows, n, a),
        is_listing(rows, n, b),
        0 <= k <= a.len(),
    ensures
        a.take(k) == b.take(k),
    decreases k,
{
    if k > 0 {
        lemma_listings_agree(rows, n, a, b, k - 1);
        let x = a[k - 1];
        let y = b[k - 1];
        assert forall|i: int| 0 <= i < k - 1 implies a[i] == b[i] by {
            assert(a.take(k - 1)[i] == b.take(k - 1)[i]);
        }
        assert(rows.contains(x) && rows.contains(y));
        if x.newer_than(y) {
            if b.contains(x) {
                let i = b.index_of(x);
                if i < k - 1 {
                    assert(a[i].newer_than(a[k - 1]));
                    law_row_order_is_total(x, x, x);
                } else if i > k - 1 {
                    assert(b[k - 1].newer_than(b[i]));
                    law_row_order_is_total(x, y, x);
                } else {
                    law_row_order_is_total(x, x, x);
                }
            } else {
                assert(b[k - 1].newer_than(x));
                law_row_order_is_total(x, y, x);
            }
            assert(false);
        }
        if y.newer_than(x) {
            if a.contains(y) {
                let i = a.index_of(y);
                if i < k - 1 {
                    assert(b[i].newer_than(b[k - 1]));
                    law_row_order_is_total(y, y, y);
                } else if i > k - 1 {
                    assert(a[k - 1].newer_than(a[i]));
                    law_row_order_is_total(x, y, x);
                } else {
                    law_row_order_is_total(y, y, y);
                }
            } else {
                assert(a[k - 1].newer_than(y));
                law_row_order_is_total(x, y, x);
            }
            assert(false);
        }
        law_row_order_is_total(x, y, x);
        let i = rows.index_of(x);
        let j = rows.index_of(y);
        assert(rows[i].id == rows[j].id);
        assert(i == j);
        assert(a.take(k) =~= a.take(k - 1).push(x));
        assert(b.take(k) =~= b.take(k - 1).push(y));
    }
}

/// A listing of the newest rows is determined by the rows: there is no other
/// one than `recent`.
pub proof fn law_recent_is_the_only_listing(history: HistoryView, n: nat, listing: Seq<RowView>)
    requires
        history.valid(),
        is_listing(history.rows, n, listing),
    ensures
        listing == history.recent(n),
{
    law_recent_lists_the_newest(history, n);
    lemma_listings_agree(history.rows, n, listing, history.recent(n), listing.len() as int);
    assert(listing.take(listing.len() as int) =~= listing);
    assert(history.recent(n).take(listing.len() as int) =~= history.recent(n));
}

/// A shorter listing is the beginning of a longer one.
pub proof fn law_shorter_listing_is_a_prefix(history: HistoryView, m: nat, n: nat)
    requires
        history.valid(),
        m <= n,
    ensures
        history.recent(m) == history.recent(n).take(history.recent(m).len() as int),
        history.recent(m).len() <= history.recent(n).len(),
{
    lemma_sorted(history.rows);
    assert(history.recent(m) =~= history.recent(n).take(history.recent(m).len() as int));
}

/// What a filter leaves in.
proof fn lemma_filter_contains(rows: Seq<RowView>, stays: spec_fn(RowView) -> bool, x: RowView)
    ensures
        rows.filter(stays).contains(x) <==> rows.contains(x) && stays(x),
{
    if rows.filter(stays).contains(x) {
        rows.lemma_filter_contains_rev(stays, x);
        let k = rows.filter(stays).index_of(x);
        rows.lemma_filter_pred(stays, k);
    }
    if rows.contains(x) && stays(x) {
        rows.lemma_filter_contains(stays, rows.index_of(x));
    }
}

/// A filter that leaves everything in changes nothing.
proof fn lemma_filter_all(rows: Seq<RowView>, stays: spec_fn(RowView) -> bool)
    requires
        forall|i: int| 0 <= i < rows.len() ==> stays(#[trigger] rows[i]),
    ensures
        rows.filter(stays) == rows,
    decreases rows.len(),
{
    reveal(Seq::filter);
    if rows.len() > 0 {
        lemma_filter_all(rows.drop_last(), stays);
        assert(rows =~= rows.drop_last().push(rows.last()));
    }
}

/// A filter that leaves nothing in gives no rows.
proof fn lemma_filter_none(rows: Seq<RowView>, stays: spec_fn(RowView) -> bool)
    requires
        forall|i: int| 0 <= i < rows.len() ==> !stays(#[trigger] rows[i]),
    ensures
        rows.filter(stays) == Seq::<RowView>::empty(),
    decreases rows.len(),
{
    reveal(Seq::filter);
    if rows.len() > 0 {
        lemma_filter_none(rows.drop_last(), stays);
    }
}

/// Rows in listing order are distinct.
proof fn lemma_listing_no_duplicates(listing: Seq<RowView>)
    requires
        newest_come_first(listing),
    ensures
        listing.no_duplicates(),
{
    assert forall|i: int, j: int|
        0 <= i < listing.len() && 0 <= j < listing.len() && i != j implies listing[i]
        != listing[j] by {
        law_row_order_is_total(listing[i], listing[j], listing[i]);
    }
}

/// Pruning keeps exactly the newest rows: those that stay are the ones that a
/// listing of that length shows, there are as many of them as there can be,
/// and each is newer than all that go. Every row stays or goes.
pub proof fn law_prune_keeps_the_newest(history: HistoryView, keep: nat)
    requires
        history.valid(),
    ensures
        history.prune(keep).rows.len() == if keep < history.rows.len() {
            keep
        } else {
            history.rows.len()
        },
        forall|x: RowView| #[trigger]
            history.prune(keep).rows.contains(x) <==> history.recent(keep).contains(x),
        forall|x: RowView, y: RowView|
            #[trigger] history.prune(keep).rows.contains(x) && #[trigger] history.rows.contains(y)
                && !history.prune(keep).rows.contains(y) ==> x.newer_than(y),
        forall|y: RowView| #[trigger]
            HistoryView::dropped(history.rows, keep).contains(y) <==> history.rows.contains(y)
                && !history.prune(keep).rows.contains(y),
{
    let rows = history.rows;
    let listing = history.recent(keep);
    let kept = history.prune(keep).rows;
    let stays = |row: RowView| HistoryView::newest(rows, keep).contains(row);
    let goes = |row: RowView| !HistoryView::newest(rows, keep).contains(row);
    law_recent_lists_the_newest(history, keep);
    assert forall|x: RowView| #[trigger] kept.contains(x) <==> listing.contains(x) by {
        lemma_filter_contains(rows, stays, x);
        if listing.contains(x) {
            assert(rows.contains(listing[listing.index_of(x)]));
        }
    }
    assert forall|x: RowView, y: RowView|
        #[trigger] kept.contains(x) && #[trigger] rows.contains(y) && !kept.contains(
            y,
        ) implies x.newer_than(y) by {
        assert(listing.contains(x) && !listing.contains(y));
        assert(listing[listing.index_of(x)].newer_than(y));
    }
    assert forall|y: RowView| #[trigger]
        HistoryView::dropped(rows, keep).contains(y) <==> rows.contains(y) && !kept.contains(y) by {
        lemma_filter_contains(rows, goes, y);
        assert(kept.contains(y) <==> listing.contains(y));
    }
    crate::history::lemma_filter_ascends(rows, stays);
    lemma_listing_no_duplicates(listing);
    assert(kept.no_duplicates()) by {
        assert forall|i: int, j: int| 0 <= i < j < kept.len() implies #[trigger] kept[i]
            != #[trigger] kept[j] by {
            assert(kept[i].id < kept[j].id);
        }
    }
    assert(kept.to_set() =~= listing.to_set());
    kept.unique_seq_to_set();
    listing.unique_seq_to_set();
}

/// Pruning does not change what comes first: a listing after it is the listing
/// before it, cut at the number of rows that were kept.
pub proof fn law_prune_keeps_listings(history: HistoryView, keep: nat, n: nat)
    requires
        history.valid(),
    ensures
        history.prune(keep).recent(n) == history.recent(
            if n < keep {
                n
            } else {
                keep
            },
        ),
{
    let pruned = history.prune(keep);
    let shown: nat = if n < keep {
        n
    } else {
        keep
    };
    let listing = history.recent(shown);
    let whole = history.recent(keep);
    let fresh = RowView { id: history.last_id + 1, ..arbitrary() };
    crate::history::law_history_stays_valid(history, fresh, keep);
    law_prune_keeps_the_newest(history, keep);
    law_recent_lists_the_newest(history, shown);
    law_recent_lists_the_newest(history, keep);
    law_shorter_listing_is_a_prefix(history, shown, keep);
    assert forall|i: int| 0 <= i < listing.len() implies pruned.rows.contains(
        #[trigger] listing[i],
    ) by {
        assert(whole[i] == listing[i]);
        assert(whole.contains(listing[i]));
    }
    assert forall|i: int, x: RowView|
        0 <= i < listing.len() && #[trigger] pruned.rows.contains(x) && !listing.contains(
            x,
        ) implies (#[trigger] listing[i]).newer_than(x) by {
        assert(whole.contains(x));
        assert(history.rows.contains(whole[whole.index_of(x)]));
    }
    assert(is_listing(pruned.rows, n, listing));
    law_recent_is_the_only_listing(pruned, n, listing);
}

/// Where there are no more rows than are to be kept, pruning changes nothing;
/// so pruning twice is pruning once.
pub proof fn law_prune_is_idempotent(history: HistoryView, keep: nat)
    requires
        history.valid(),
    ensures
        history.rows.len() <= keep ==> history.prune(keep) == history,
        history.rows.len() <= keep ==> HistoryView::dropped(history.rows, keep).len() == 0,
        history.prune(keep).prune(keep) == history.prune(keep),
{
    let fresh = RowView { id: history.last_id + 1, ..arbitrary() };
    crate::history::law_history_stays_valid(history, fresh, keep);
    law_prune_keeps_the_newest(history, keep);
    lemma_prune_within_limit(history, keep);
    lemma_prune_within_limit(history.prune(keep), keep);
}

/// Pruning to as many rows as there are changes nothing.
proof fn lemma_prune_within_limit(history: HistoryView, keep: nat)
    requires
        history.valid(),
    ensures
        history.rows.len() <= keep ==> history.prune(keep) == history,
        history.rows.len() <= keep ==> HistoryView::dropped(history.rows, keep).len() == 0,
{
    let rows = history.rows;
    if rows.len() <= keep {
        lemma_sorted(rows);
        let listing = history.recent(keep);
        assert(listing =~= HistoryView::sorted(rows));
        assert forall|i: int| 0 <= i < rows.len() implies listing.contains(#[trigger] rows[i]) by {
            assert(rows.contains(rows[i]));
        }
        lemma_filter_all(rows, |row: RowView| HistoryView::newest(rows, keep).contains(row));
        lemma_filter_none(rows, |row: RowView| !HistoryView::newest(rows, keep).contains(row));
    }
}

/// After a run was recorded the history holds one row more than before, or as
/// many as it may hold, whichever is fewer. It never holds none.
pub proof fn law_record_bounds_the_history(history: HistoryView, row: RowView, max_history: nat)
    requires
        history.valid(),
        row.id > history.last_id,
    ensures
        history.record(row, max_history).rows.len() == if HistoryView::at_least_one(max_history)
            < history.rows.len() + 1 {
            HistoryView::at_least_one(max_history)
        } else {
            history.rows.len() + 1
        },
        history.record(row, max_history).rows.len() >= 1,
{
    crate::history::law_history_stays_valid(history, row, max_history);
    law_prune_keeps_the_newest(history.insert(row), HistoryView::at_least_one(max_history));
}

/// Recording a run alters no row: what is there afterwards is the new row, or
/// was there before.
pub proof fn law_record_alters_no_row(
    history: HistoryView,
    row: RowView,
    max_history: nat,
    x: RowView,
)
    requires
        history.record(row, max_history).rows.contains(x),
    ensures
        x == row || history.rows.contains(x),
{
    let inserted = history.insert(row);
    let keep = HistoryView::at_least_one(max_history);
    lemma_filter_contains(
        inserted.rows,
        |row: RowView| HistoryView::newest(inserted.rows, keep).contains(row),
        x,
    );
    let k = inserted.rows.index_of(x);
    if k < history.rows.len() {
        assert(history.rows[k] == x);
    }
}

/// Where the history has room for one more row, recording a run loses none.
pub proof fn law_record_with_room_loses_nothing(
    history: HistoryView,
    row: RowView,
    max_history: nat,
)
    requires
        history.valid(),
        row.id > history.last_id,
        history.rows.len() < HistoryView::at_least_one(max_history),
    ensures
        history.record(row, max_history) == history.insert(row),
        HistoryView::dropped(
            history.insert(row).rows,
            HistoryView::at_least_one(max_history),
        ).len() == 0,
{
    crate::history::law_history_stays_valid(history, row, max_history);
    law_prune_is_idempotent(history.insert(row), HistoryView::at_least_one(max_history));
}

/// A maximum of no rows counts as a maximum of one, and a limit of none as a
/// limit of one.
pub proof fn law_none_counts_as_one(history: HistoryView, row: RowView)
    ensures
        history.record(row, 0) == history.record(row, 1),
        history.recent(HistoryView::at_least_one(0)) == history.recent(
            HistoryView::at_least_one(1),
        ),
{
}

/// A run that is newer than all others is kept, whatever the maximum, and
/// comes first in every listing.
pub proof fn law_newest_run_comes_first(
    history: HistoryView,
    row: RowView,
    max_history: nat,
    limit: nat,
)
    requires
        history.valid(),
        row.id > history.last_id,
        forall|x: RowView| #[trigger] history.rows.contains(x) ==> row.newer_than(x),
    ensures
        history.record(row, max_history).rows.contains(row),
        history.record(row, max_history).recent(HistoryView::at_least_one(limit)).len() > 0,
        history.record(row, max_history).recent(HistoryView::at_least_one(limit))[0] == row,
{
    let inserted = history.insert(row);
    let keep = HistoryView::at_least_one(max_history);
    let count = HistoryView::at_least_one(limit);
    let shown: nat = if count < keep {
        count
    } else {
        keep
    };
    crate::history::law_history_stays_valid(history, row, max_history);
    law_prune_keeps_listings(inserted, keep, count);
    law_prune_keeps_the_newest(inserted, keep);
    lemma_newest_heads_listing(history, row, shown);
    lemma_newest_heads_listing(history, row, keep);
    assert(inserted.recent(keep).contains(row));
}

/// A row that is newer than all others heads a listing.
proof fn lemma_newest_heads_listing(history: HistoryView, row: RowView, n: nat)
    requires
        history.valid(),
        row.id > history.last_id,
        forall|x: RowView| #[trigger] history.rows.contains(x) ==> row.newer_than(x),
        n >= 1,
    ensures
        history.insert(row).recent(n).len() > 0,
        history.insert(row).recent(n)[0] == row,
{
    let inserted = history.insert(row);
    crate::history::law_history_stays_valid(history, row, n);
    law_recent_lists_the_newest(inserted, n);
    let listing = inserted.recent(n);
    assert(inserted.rows[history.rows.len() as int] == row);
    assert(inserted.rows.contains(row));
    let first = listing[0];
    assert(inserted.rows.contains(first));
    if first != row {
        let k = inserted.rows.index_of(first);
        assert(history.rows[k] == first);
        assert(history.rows.contains(first));
        assert(row.newer_than(first));
        if listing.contains(row) {
            let i = listing.index_of(row);
            assert(listing[0].newer_than(listing[i]));
        } else {
            assert(listing[0].newer_than(row));
        }
        law_row_order_is_total(row, first, row);
    }
}

/// A run that starts at the same text as others, or at a later one, is newer
/// than they are once it is recorded.
pub proof fn law_later_record_is_newer(history: HistoryView, row: RowView, x: RowView)
    requires
        history.valid(),
        row.id > history.last_id,
        history.rows.contains(x),
        !crate::text::text_before(row.started_at, x.started_at),
    ensures
        row.newer_than(x),
{
    crate::text::law_text_order_is_total(row.started_at, x.started_at, x.started_at);
    let k = history.rows.index_of(x);
    assert(history.rows[k].id <= history.last_id);
}

/// A listing of at least as many rows as there are shows every row.
pub proof fn law_full_listing_shows_every_row(history: HistoryView, n: nat, x: RowView)
    requires
        history.valid(),
        n >= history.rows.len(),
    ensures
        history.recent(n).contains(x) <==> history.rows.contains(x),
        history.recent(n).len() == history.rows.len(),
{
    lemma_sorted(history.rows);
    assert(history.recent(n) =~= HistoryView::sorted(history.rows));
}

/// A recorded run that is among those to be kept is there afterwards, and a
/// listing of at least as many rows as there are shows it.
pub proof fn law_kept_run_is_listed(
    history: HistoryView,
    row: RowView,
    max_history: nat,
    limit: nat,
)
    requires
        history.valid(),
        row.id > history.last_id,
        history.insert(row).recent(HistoryView::at_least_one(max_history)).contains(row),
        limit >= history.record(row, max_history).rows.len(),
    ensures
        history.record(row, max_history).rows.contains(row),
        history.record(row, max_history).recent(limit).contains(row),
{
    crate::history::law_history_stays_valid(history, row, max_history);
    law_prune_keeps_the_newest(history.insert(row), HistoryView::at_least_one(max_history));
    law_full_listing_shows_every_row(history.record(row, max_history), limit, row);
}

/// An id is never given out twice: that of a recorded row is larger than that
/// of every row there is, and that of the next row to be recorded is larger
/// again, whichever rows were let go in between.
pub proof fn law_ids_are_never_reused(
    history: HistoryView,
    row: RowView,
    max_history: nat,
    next: RowView,
    x: RowView,
)
    requires
        history.valid(),
        row.id == history.last_id + 1,
        next.id == history.record(row, max_history).last_id + 1,
        history.rows.contains(x),
    ensures
        x.id < row.id < next.id,
{
    assert(history.rows[history.rows.index_of(x)].id <= history.last_id);
}

/// A recorded run reads back as it was recorded, its output bounded, if both
/// its times have an RFC 3339 form.
pub proof fn law_recorded_run_reads_back(
    history: HistoryView,
    task_text: Seq<char>,
    task_priority: Seq<char>,
    started_at: Instant,
    started_text: Seq<char>,
    finished_at: Instant,
    finished_text: Seq<char>,
    status: Seq<char>,
    output: Option<&str>,
    duration_ms: int,
)
    requires
        started_at.faithfully_written(started_text),
        finished_at.faithfully_written(finished_text),
    ensures
        history.next_row(
            task_text,
            task_priority,
            started_text,
            finished_text,
            status,
            output,
            duration_ms,
        ).run() == Ok::<RunView, ErrorView>(
            RunView {
                id: history.last_id + 1,
                task_text,
                task_priority,
                started_at,
                finished_at,
                status,
                output: match output {
                    Some(output) => Some(crate::output::bounded_output(output@)),
                    None => None,
                },
                duration_ms,
            },
        ),
{
}

/// A run that is newer than all others is what every listing gives back first,
/// as it was recorded, if both its times have an RFC 3339 form.
pub proof fn law_newest_run_reads_back_first(
    history: HistoryView,
    task_text: Seq<char>,
    task_priority: Seq<char>,
    started_at: Instant,
    started_text: Seq<char>,
    finished_at: Instant,
    finished_text: Seq<char>,
    status: Seq<char>,
    output: Option<&str>,
    duration_ms: int,
    max_history: nat,
    limit: nat,
)
    requires
        history.valid(),
        started_at.faithfully_written(started_text),
        finished_at.faithfully_written(finished_text),
        forall|x: RowView| #[trigger]
            history.rows.contains(x) ==> !crate::text::text_before(started_text, x.started_at),
    ensures
        ({
            let row = history.next_row(
                task_text,
                task_priority,
                started_text,
                finished_text,
                status,
                output,
                duration_ms,
            );
            let listed = history.record(row, max_history).recent(HistoryView::at_least_one(limit));
            &&& listed.len() > 0
            &&& listed[0].run() == Ok::<RunView, ErrorView>(
                RunView {
                    id: history.last_id + 1,
                    task_text,
                    task_priority,
                    started_at,
                    finished_at,
                    status,
                    output: match output {
                        Some(output) => Some(crate::output::bounded_output(output@)),
                        None => None,
                    },
                    duration_ms,
                },
            )
        }),
{
    let row = history.next_row(
        task_text,
        task_priority,
        started_text,
        finished_text,
        status,
        output,
        duration_ms,
    );
    assert forall|x: RowView| #[trigger] history.rows.contains(x) implies row.newer_than(x) by {
        law_later_record_is_newer(history, row, x);
    }
    law_newest_run_comes_first(history, row, max_history, limit);
}

/// Whether every row tells of a run and has a start that the store wrote.
pub open spec fn readable(history: HistoryView) -> bool {
    forall|k: int|
        0 <= k < history.rows.len() ==> (#[trigger] history.rows[k]).run() is Ok
            && history.rows[k].has_written_start()
}

/// A history stays readable when a run is recorded whose times have an RFC
/// 3339 form.
pub proof fn law_history_stays_readable(history: HistoryView, row: RowView, max_history: nat)
    requires
        readable(history),
        row.run() is Ok,
        row.has_written_start(),
    ensures
        readable(history.record(row, max_history)),
{
    let recorded = history.record(row, max_history);
    assert forall|k: int| 0 <= k < recorded.rows.len() implies (
    #[trigger] recorded.rows[k]).run() is Ok && recorded.rows[k].has_written_start() by {
        let x = recorded.rows[k];
        assert(recorded.rows.contains(x));
        law_record_alters_no_row(history, row, max_history, x);
        if x != row {
            assert(history.rows[history.rows.index_of(x)] == x);
        }
    }
}

/// Listing a readable history never fails.
pub proof fn law_readable_history_lists(
    history: HistoryView,
    n: nat,
    listed: Result<Vec<HeartbeatRun>, StoreError>,
)
    requires
        history.valid(),
        readable(history),
        crate::store::lists(history.recent(n).map_values(|row: RowView| row.run()), listed),
    ensures
        listed is Ok,
{
    law_recent_lists_the_newest(history, n);
    let rows = history.recent(n);
    let decoded = rows.map_values(|row: RowView| row.run());
    assert forall|i: int| 0 <= i < decoded.len() implies #[trigger] decoded[i] is Ok by {
        assert(history.rows.contains(rows[i]));
        assert(history.rows[history.rows.index_of(rows[i])].run() is Ok);
    }
}

/// A listing of a readable history is in order of time: of two runs the one
/// listed first started later, or at the same time and was recorded later.
pub proof fn law_listing_is_in_order_of_time(history: HistoryView, n: nat, i: int, j: int)
    requires
        history.valid(),
        readable(history),
        0 <= i < j < history.recent(n).len(),
    ensures
        ({
            let a = history.recent(n)[i];
            let b = history.recent(n)[j];
            let start_a = crate::timestamp::read_instant(a.started_at);
            let start_b = crate::timestamp::read_instant(b.started_at);
            &&& start_a is Some
            &&& start_b is Some
            &&& start_b->0.before(start_a->0) || (start_a == start_b && a.id > b.id)
        }),
{
    law_recent_lists_the_newest(history, n);
    let a = history.recent(n)[i];
    let b = history.recent(n)[j];
    assert(a.newer_than(b));
    assert(history.rows.contains(a) && history.rows.contains(b));
    assert(history.rows[history.rows.index_of(a)].has_written_start());
    assert(history.rows[history.rows.index_of(b)].has_written_start());
    let at_a = choose|at: Instant| #[trigger] at.faithfully_written(a.started_at);
    let at_b = choose|at: Instant| #[trigger] at.faithfully_written(b.started_at);
    crate::timestamp::law_written_texts_sort_by_time(at_b, b.started_at, at_a, a.started_at);
}

/// Counting by two statuses counts no row twice, and each row with one of them.
proof fn lemma_counts_add_up(rows: Seq<RowView>, a: Seq<char>, b: Seq<char>)
    requires
        a != b,
    ensures
        rows.filter(|row: RowView| row.status == a).len() + rows.filter(
            |row: RowView| row.status == b,
        ).len() <= rows.len(),
        (forall|i: int|
            0 <= i < rows.len() ==> (#[trigger] rows[i]).status == a || rows[i].status == b)
            ==> rows.filter(|row: RowView| row.status == a).len() + rows.filter(
            |row: RowView| row.status == b,
        ).len() == rows.len(),
    decreases rows.len(),
{
    reveal(Seq::filter);
    if rows.len() > 0 {
        lemma_counts_add_up(rows.drop_last(), a, b);
        if forall|i: int|
            0 <= i < rows.len() ==> (#[trigger] rows[i]).status == a || rows[i].status == b {
            let rest = rows.drop_last();
            assert forall|i: int| 0 <= i < rest.len() implies (#[trigger] rest[i]).status == a
                || rest[i].status == b by {
                assert(rows[i].status == a || rows[i].status == b);
            }
            assert(rows[rows.len() - 1] == rows.last());
        }
    }
}

/// The runs that succeeded and those that failed are no more than all runs,
/// and they are all runs where no other status occurs.
pub proof fn law_stats_add_up(history: HistoryView)
    ensures
        history.count_status(crate::store::STATUS_OK@) + history.count_status(
            crate::store::STATUS_ERROR@,
        ) <= history.rows.len(),
        (forall|i: int|
            0 <= i < history.rows.len() ==> (#[trigger] history.rows[i]).status
                == crate::store::STATUS_OK@ || history.rows[i].status == crate::store::STATUS_ERROR@)
            ==> history.count_status(crate::store::STATUS_OK@) + history.count_status(
            crate::store::STATUS_ERROR@,
        ) == history.rows.len(),
{
    reveal_strlit("ok");
    reveal_strlit("error");
    assert(crate::store::STATUS_OK@.len() != crate::store::STATUS_ERROR@.len());
    lemma_counts_add_up(history.rows, crate::store::STATUS_OK@, crate::store::STATUS_ERROR@);
}

/// A recorded run that costs no other run its place counts once, under its own
/// status.
pub proof fn law_record_counts_once(
    history: HistoryView,
    row: RowView,
    max_history: nat,
    status: Seq<char>,
)
    requires
        history.valid(),
        row.id > history.last_id,
        history.rows.len() < HistoryView::at_least_one(max_history),
    ensures
        history.record(row, max_history).rows.len() == history.rows.len() + 1,
        history.record(row, max_history).count_status(status) == history.count_status(status) + (
        if row.status == status {
            1int
        } else {
            0int
        }),
{
    law_record_with_room_loses_nothing(history, row, max_history);
    history.rows.lemma_filter_len_push(|row: RowView| row.status == status, row);
}

/// A history is valid exactly if the ids of its rows ascend and none of them is
/// larger than the last one given out. There is no other condition on it.
pub proof fn law_validity_is_about_ids_only(history: HistoryView)
    ensures
        history.valid() <==> {
            &&& forall|i: int, j: int|
                0 <= i < j < history.rows.len() ==> #[trigger] history.rows[i].id
                    < #[trigger] history.rows[j].id
            &&& forall|i: int|
                0 <= i < history.rows.len() ==> #[trigger] history.rows[i].id <= history.last_id
        },
{
}

/// A number of rows is taken as it is given, however large, but that none
/// counts as one.
pub proof fn law_numbers_are_taken_as_given(n: nat)
    ensures
        n >= 1 ==> HistoryView::at_least_one(n) == n,
        HistoryView::at_least_one(0) == 1,
{
}

/// After a record there are as many rows as before and one more, up to
/// `max_history` itself; only a maximum of none leaves one. The new row's id is
/// the last one given out.
pub proof fn law_record_leaves_as_many_rows_as_allowed(
    history: HistoryView,
    row: RowView,
    max_history: nat,
)
    requires
        forall|i: int, j: int|
            0 <= i < j < history.rows.len() ==> #[trigger] history.rows[i].id
                < #[trigger] history.rows[j].id,
        forall|i: int|
            0 <= i < history.rows.len() ==> #[trigger] history.rows[i].id <= history.last_id,
        row.id > history.last_id,
    ensures
        max_history == 0 ==> history.record(row, max_history).rows.len() == 1,
        1 <= max_history <= history.rows.len() ==> history.record(row, max_history).rows.len()
            == max_history,
        max_history > history.rows.len() ==> history.record(row, max_history).rows
            == history.rows.push(row),
        history.record(row, max_history).last_id == row.id,
{
    assert(history.valid());
    law_record_bounds_the_history(history, row, max_history);
    if max_history > history.rows.len() {
        law_record_with_room_loses_nothing(history, row, max_history);
    }
}

/// After a record the rows are some of those there were and the new one, still
/// in the order of their ids. Each row that stays started later than each that
/// goes, or at the same text and was recorded later.
pub proof fn law_record_lets_the_oldest_go(history: HistoryView, row: RowView, max_history: nat)
    requires
        forall|i: int, j: int|
            0 <= i < j < history.rows.len() ==> #[trigger] history.rows[i].id
                < #[trigger] history.rows[j].id,
        forall|i: int|
            0 <= i < history.rows.len() ==> #[trigger] history.rows[i].id <= history.last_id,
        row.id > history.last_id,
    ensures
        forall|i: int|
            0 <= i < history.record(row, max_history).rows.len() ==> history.rows.push(
                row,
            ).contains(#[trigger] history.record(row, max_history).rows[i]),
        forall|i: int, j: int|
            0 <= i < j < history.record(row, max_history).rows.len() ==> #[trigger] history.record(
                row,
                max_history,
            ).rows[i].id < #[trigger] history.record(row, max_history).rows[j].id,
        forall|x: RowView, y: RowView| #[trigger]
            history.record(row, max_history).rows.contains(x) && #[trigger] history.rows.push(
                row,
            ).contains(y) && !history.record(row, max_history).rows.contains(y) ==> {
                ||| crate::text::text_before(y.started_at, x.started_at)
                ||| x.started_at == y.started_at && x.id > y.id
            },
{
    assert(history.valid());
    crate::history::law_history_stays_valid(history, row, max_history);
    let inserted = history.insert(row);
    let keep = HistoryView::at_least_one(max_history);
    law_prune_keeps_the_newest(inserted, keep);
    crate::history::lemma_filter_ascends(
        inserted.rows,
        |row: RowView| HistoryView::newest(inserted.rows, keep).contains(row),
    );
}

/// A listing of `n` rows shows `n` of them, or all where there are fewer. Of
/// two rows the one shown first started later, or at the same text and was
/// recorded later; and so did every row shown, compared to one left out.
pub proof fn law_listing_shows_latest_starts_first(history: HistoryView, n: nat)
    requires
        forall|i: int, j: int|
            0 <= i < j < history.rows.len() ==> #[trigger] history.rows[i].id
                < #[trigger] history.rows[j].id,
    ensures
        n <= history.rows.len() ==> history.recent(n).len() == n,
        n > history.rows.len() ==> history.recent(n).len() == history.rows.len(),
        forall|i: int|
            0 <= i < history.recent(n).len() ==> history.rows.contains(
                #[trigger] history.recent(n)[i],
            ),
        forall|i: int, j: int|
            0 <= i < j < history.recent(n).len() ==> {
                let a = #[trigger] history.recent(n)[i];
                let b = #[trigger] history.recent(n)[j];
                ||| crate::text::text_before(b.started_at, a.started_at)
                ||| a.started_at == b.started_at && a.id > b.id
            },
        forall|i: int, y: RowView|
            0 <= i < history.recent(n).len() && #[trigger] history.rows.contains(y)
                && !history.recent(n).contains(y) ==> {
                let x = #[trigger] history.recent(n)[i];
                ||| crate::text::text_before(y.started_at, x.started_at)
                ||| x.started_at == y.started_at && x.id > y.id
            },
{
    let last_id = if history.rows.len() > 0 {
        history.rows.last().id
    } else {
        0
    };
    let same_rows = HistoryView { rows: history.rows, last_id };
    assert forall|i: int| 0 <= i < same_rows.rows.len() implies #[trigger] same_rows.rows[i].id
        <= last_id by {
        if i < same_rows.rows.len() - 1 {
            assert(history.rows[i].id < history.rows[history.rows.len() - 1].id);
        }
    }
    assert(same_rows.valid());
    law_recent_lists_the_newest(same_rows, n);
    let listing = history.recent(n);
    assert forall|i: int, j: int| 0 <= i < j < listing.len() implies {
        let a = #[trigger] listing[i];
        let b = #[trigger] listing[j];
        ||| crate::text::text_before(b.started_at, a.started_at)
        ||| a.started_at == b.started_at && a.id > b.id
    } by {
        assert(listing[i].newer_than(listing[j]));
    }
    assert forall|i: int, y: RowView|
        0 <= i < listing.len() && #[trigger] history.rows.contains(y) && !listing.contains(
            y,
        ) implies {
        let x = #[trigger] listing[i];
        ||| crate::text::text_before(y.started_at, x.started_at)
        ||| x.started_at == y.started_at && x.id > y.id
    } by {
        assert(listing[i].newer_than(y));
    }
}

/// What a filter leaves in and what it leaves out are all rows.
proof fn lemma_filter_splits(
    rows: Seq<RowView>,
    stays: spec_fn(RowView) -> bool,
    goes: spec_fn(RowView) -> bool,
)
    requires
        forall|row: RowView| #[trigger] stays(row) <==> !goes(row),
    ensures
        rows.filter(stays).len() + rows.filter(goes).len() == rows.len(),
    decreases rows.len(),
{
    reveal(Seq::filter);
    if rows.len() > 0 {
        lemma_filter_splits(rows.drop_last(), stays, goes);
        assert(stays(rows.last()) <==> !goes(rows.last()));
    }
}

/// The ids that a record reports as pruned are those of the rows that were
/// there or are new, and that are there no longer. They ascend, so none is
/// reported twice, and as many are reported as rows are lost.
pub proof fn law_reported_ids_are_those_of_the_rows_that_went(
    history: HistoryView,
    row: RowView,
    max_history: nat,
)
    requires
        forall|i: int, j: int|
            0 <= i < j < history.rows.len() ==> #[trigger] history.rows[i].id
                < #[trigger] history.rows[j].id,
        forall|i: int|
            0 <= i < history.rows.len() ==> #[trigger] history.rows[i].id <= history.last_id,
        row.id > history.last_id,
    ensures
        ({
            let after = history.record(row, max_history).rows;
            let reported = crate::history::row_ids(
                HistoryView::dropped(
                    history.insert(row).rows,
                    HistoryView::at_least_one(max_history),
                ),
            );
            &&& forall|id: int| #[trigger]
                reported.contains(id) <==> {
                    &&& id == row.id || exists|i: int|
                        0 <= i < history.rows.len() && #[trigger] history.rows[i].id == id
                    &&& forall|j: int| 0 <= j < after.len() ==> #[trigger] after[j].id != id
                }
            &&& forall|i: int, j: int|
                0 <= i < j < reported.len() ==> #[trigger] reported[i] < #[trigger] reported[j]
            &&& reported.len() + after.len() == history.rows.len() + 1
        }),
{
    assert(history.valid());
    crate::history::law_history_stays_valid(history, row, max_history);
    let inserted = history.insert(row);
    let keep = HistoryView::at_least_one(max_history);
    let stays = |row: RowView| HistoryView::newest(inserted.rows, keep).contains(row);
    let goes = |row: RowView| !HistoryView::newest(inserted.rows, keep).contains(row);
    let after = history.record(row, max_history).rows;
    let dropped = HistoryView::dropped(inserted.rows, keep);
    let reported = crate::history::row_ids(dropped);
    law_prune_keeps_the_newest(inserted, keep);
    crate::history::lemma_filter_ascends(inserted.rows, stays);
    crate::history::lemma_filter_ascends(inserted.rows, goes);
    lemma_filter_splits(inserted.rows, stays, goes);
    assert forall|i: int, j: int| 0 <= i < j < reported.len() implies #[trigger] reported[i]
        < #[trigger] reported[j] by {
        assert(dropped[i].id < dropped[j].id);
    }
    assert forall|id: int| #[trigger] reported.contains(id) <==> {
        &&& id == row.id || exists|i: int|
            0 <= i < history.rows.len() && #[trigger] history.rows[i].id == id
        &&& forall|j: int| 0 <= j < after.len() ==> #[trigger] after[j].id != id
    } by {
        if reported.contains(id) {
            let k = reported.index_of(id);
            let gone = dropped[k];
            assert(dropped.contains(gone));
            assert(inserted.rows.contains(gone) && !after.contains(gone));
            let m = inserted.rows.index_of(gone);
            if m < history.rows.len() {
                assert(history.rows[m].id == id);
            }
            assert forall|j: int| 0 <= j < after.len() implies #[trigger] after[j].id != id by {
                assert(inserted.rows.contains(after[j]));
                let p = inserted.rows.index_of(after[j]);
                assert(after.contains(after[j]));
                if after[j].id == id {
                    assert(inserted.rows[p].id == inserted.rows[m].id);
                    assert(p == m);
                }
            }
        }
        if (id == row.id || exists|i: int|
            0 <= i < history.rows.len() && #[trigger] history.rows[i].id == id) && (forall|j: int|
            0 <= j < after.len() ==> #[trigger] after[j].id != id) {
            let m = if id == row.id {
                history.rows.len() as int
            } else {
                choose|i: int| 0 <= i < history.rows.len() && #[trigger] history.rows[i].id == id
            };
            let gone = inserted.rows[m];
            assert(gone.id == id);
            assert(inserted.rows.contains(gone));
            if after.contains(gone) {
                assert(after[after.index_of(gone)].id == id);
            }
            assert(dropped.contains(gone));
            assert(reported[dropped.index_of(gone)] == id);
        }
    }
}

/// A listing hands out a run for every row, and each run has the id, the texts,
/// the times, the status, the output and the duration of its row. It fails
/// exactly if some row holds a time that `chrono` does not read, or no
/// duration, and then tells of the first such row.
pub proof fn law_listed_runs_are_the_rows(
    rows: Seq<RowView>,
    listed: Result<Vec<HeartbeatRun>, StoreError>,
)
    requires
        crate::store::lists(rows.map_values(|row: RowView| row.run()), listed),
    ensures
        listed is Ok <==> forall|i: int|
            0 <= i < rows.len() ==> {
                &&& rfc3339_instant((#[trigger] rows[i]).started_at) is Some
                &&& rfc3339_instant(rows[i].finished_at) is Some
                &&& rows[i].duration_ms is Some
            },
        listed matches Ok(runs) ==> {
            &&& runs@.len() == rows.len()
            &&& forall|i: int|
                0 <= i < rows.len() ==> {
                    &&& (#[trigger] runs@[i]).id == rows[i].id
                    &&& runs@[i].task_text@ == rows[i].task_text
                    &&& runs@[i].task_priority@ == rows[i].task_priority
                    &&& rfc3339_instant(rows[i].started_at) == Some(
                        (runs@[i].started_at@.secs, runs@[i].started_at@.nanos),
                    )
                    &&& rfc3339_instant(rows[i].finished_at) == Some(
                        (runs@[i].finished_at@.secs, runs@[i].finished_at@.nanos),
                    )
                    &&& runs@[i].status@ == rows[i].status
                    &&& runs@[i].output is Some <==> rows[i].output is Some
                    &&& runs@[i].output is Some ==> runs@[i].output->0@ == rows[i].output->0
                    &&& rows[i].duration_ms == Some(runs@[i].duration_ms as int)
                }
        },
        listed matches Err(error) ==> exists|i: int|
            {
                let row = #[trigger] rows[i];
                &&& 0 <= i < rows.len()
                &&& forall|j: int|
                    0 <= j < i ==> {
                        &&& rfc3339_instant((#[trigger] rows[j]).started_at) is Some
                        &&& rfc3339_instant(rows[j].finished_at) is Some
                        &&& rows[j].duration_ms is Some
                    }
                &&& if rfc3339_instant(row.started_at) is None {
                    error is InvalidTimestamp && error->raw@ == row.started_at
                } else if rfc3339_instant(row.finished_at) is None {
                    error is InvalidTimestamp && error->raw@ == row.finished_at
                } else {
                    error is MissingDuration && row.duration_ms is None
                }
            },
{
    let decoded = rows.map_values(|row: RowView| row.run());
    assert forall|i: int| 0 <= i < rows.len() implies #[trigger] decoded[i] == rows[i].run() by {}
    match listed {
        Ok(runs) => {
            assert forall|i: int| 0 <= i < rows.len() implies rows[i].run() == Ok::<
                RunView,
                ErrorView,
            >((#[trigger] runs@[i])@) by {
                assert(decoded[i] == Ok::<RunView, ErrorView>(runs@[i]@));
            }
            assert forall|i: int| 0 <= i < rows.len() implies (#[trigger] rows[i]).run() is Ok by {
                assert(rows[i].run() == Ok::<RunView, ErrorView>(runs@[i]@));
            }
        },
        Err(error) => {
            let i = choose|i: int|
                {
                    &&& 0 <= i < decoded.len()
                    &&& #[trigger] decoded[i] == Err::<RunView, ErrorView>(error@)
                    &&& forall|j: int| 0 <= j < i ==> #[trigger] decoded[j] is Ok
                };
            assert(rows[i].run() == Err::<RunView, ErrorView>(error@));
            assert forall|j: int| 0 <= j < i implies (#[trigger] rows[j]).run() is Ok by {
                assert(decoded[j] is Ok);
            }
        },
    }
}

/// A row that is recorded holds what was given for it, under the next free id.
/// Output of at most 16 KiB is in it as it is; of longer output there is the
/// longest beginning that leaves room for the marker, and the marker.
pub proof fn law_recorded_row_holds_what_was_given(
    history: HistoryView,
    task_text: Seq<char>,
    task_priority: Seq<char>,
    started_at: Seq<char>,
    finished_at: Seq<char>,
    status: Seq<char>,
    output: Option<&str>,
    duration_ms: int,
)
    ensures
        ({
            let row = history.next_row(
                task_text,
                task_priority,
                started_at,
                finished_at,
                status,
                output,
                duration_ms,
            );
            &&& row.id == history.last_id + 1
            &&& row.task_text == task_text
            &&& row.task_priority == task_priority
            &&& row.started_at == started_at
            &&& row.finished_at == finished_at
            &&& row.status == status
            &&& row.duration_ms == Some(duration_ms)
            &&& row.output is Some <==> output is Some
            &&& output matches Some(output) ==> {
                &&& encode_utf8(output@).len() <= 16384 ==> row.output->0 == output@
                &&& encode_utf8(output@).len() > 16384 ==> exists|k: int|
                    {
                        &&& 0 <= k < output@.len()
                        &&& row.output->0 == #[trigger] output@.take(k) + "\n...[truncated]"@
                        &&& encode_utf8(output@.take(k)).len() + 15 <= 16384
                        &&& encode_utf8(output@.take(k + 1)).len() + 15 > 16384
                    }
            }
        }),
{
    if let Some(output) = output {
        crate::output::law_bounded_output_is_whole_or_longest_beginning(output@);
    }
}

/// A recorded run that was kept is handed out by every listing that is long
/// enough: one of the runs has all that was recorded, its output cut only
/// where it is longer than 16 KiB.
pub proof fn law_kept_run_is_handed_out(
    history: HistoryView,
    task_text: Seq<char>,
    task_priority: Seq<char>,
    started_at: Seq<char>,
    finished_at: Seq<char>,
    status: Seq<char>,
    output: Option<&str>,
    duration_ms: int,
    row: RowView,
    max_history: nat,
    limit: nat,
    listed: Result<Vec<HeartbeatRun>, StoreError>,
)
    requires
        history.valid(),
        row == history.next_row(
            task_text,
            task_priority,
            started_at,
            finished_at,
            status,
            output,
            duration_ms,
        ),
        history.record(row, max_history).rows.contains(row),
        limit >= history.record(row, max_history).rows.len(),
        crate::store::lists(
            history.record(row, max_history).recent(limit).map_values(|row: RowView| row.run()),
            listed,
        ),
        listed is Ok,
    ensures
        exists|i: int|
            {
                let run = #[trigger] listed->Ok_0@[i];
                &&& 0 <= i < listed->Ok_0@.len()
                &&& run.id == history.last_id + 1
                &&& run.task_text@ == task_text
                &&& run.task_priority@ == task_priority
                &&& rfc3339_instant(started_at) == Some(
                    (run.started_at@.secs, run.started_at@.nanos),
                )
                &&& rfc3339_instant(finished_at) == Some(
                    (run.finished_at@.secs, run.finished_at@.nanos),
                )
                &&& run.status@ == status
                &&& run.duration_ms == duration_ms
                &&& run.output is Some <==> output is Some
                &&& output is Some && encode_utf8(output->0@).len() <= 16384
                    ==> run.output->0@ == output->0@
            },
{
    law_recorded_row_holds_what_was_given(
        history,
        task_text,
        task_priority,
        started_at,
        finished_at,
        status,
        output,
        duration_ms,
    );
    let after = history.record(row, max_history);
    crate::history::law_history_stays_valid(history, row, max_history);
    law_full_listing_shows_every_row(after, limit, row);
    let rows = after.recent(limit);
    law_listed_runs_are_the_rows(rows, listed);
    let i = rows.index_of(row);
    assert(listed->Ok_0@[i].id == rows[i].id);
}

/// The number of rows with a status is the number of positions at which a row
/// with it stands.
pub proof fn law_count_is_the_number_of_positions(history: HistoryView, status: Seq<char>)
    ensures
        Set::new(
            |i: int| 0 <= i < history.rows.len() && history.rows[i].status == status,
        ).finite(),
        history.count_status(status) == Set::new(
            |i: int| 0 <= i < history.rows.len() && history.rows[i].status == status,
        ).len(),
{
    lemma_count_positions(history.rows, status);
}

proof fn lemma_count_positions(rows: Seq<RowView>, status: Seq<char>)
    ensures
        Set::new(|i: int| 0 <= i < rows.len() && rows[i].status == status).finite(),
        rows.filter(|row: RowView| row.status == status).len() == Set::new(
            |i: int| 0 <= i < rows.len() && rows[i].status == status,
        ).len(),
    decreases rows.len(),
{
    reveal(Seq::filter);
    let positions = Set::new(|i: int| 0 <= i < rows.len() && rows[i].status == status);
    if rows.len() == 0 {
        assert(positions =~= Set::empty());
    } else {
        let rest = rows.drop_last();
        let positions_rest = Set::new(|i: int| 0 <= i < rest.len() && rest[i].status == status);
        lemma_count_positions(rest, status);
        if rows.last().status == status {
            assert(positions =~= positions_rest.insert(rows.len() - 1));
        } else {
            assert(positions =~= positions_rest);
        }
    }
}

/// The readings of stored rows are those of each row in turn, and the ids of
/// rows those of each in turn.
pub proof fn law_rows_are_read_one_by_one(rows: Seq<RunRow>, views: Seq<RowView>)
    ensures
        crate::history::row_views(rows).len() == rows.len(),
        forall|i: int|
            0 <= i < rows.len() ==> #[trigger] crate::history::row_views(rows)[i] == rows[i]@,
        crate::history::row_ids(views).len() == views.len(),
        forall|i: int|
            0 <= i < views.len() ==> #[trigger] crate::history::row_ids(views)[i] == views[i].id,
{
}

/// Of two runs of different times the later one comes first in every listing
/// that shows the earlier one, and outlasts it when a further run is recorded.
pub proof fn law_later_run_precedes_and_outlasts(
    history: HistoryView,
    earlier: RowView,
    earlier_start: Instant,
    later: RowView,
    later_start: Instant,
    n: nat,
    row: RowView,
    max_history: nat,
)
    requires
        history.valid(),
        row.id > history.last_id,
        history.rows.contains(earlier),
        history.rows.contains(later),
        earlier_start.faithfully_written(earlier.started_at),
        later_start.faithfully_written(later.started_at),
        earlier_start.secs < later_start.secs || (earlier_start.secs == later_start.secs
            && earlier_start.nanos < later_start.nanos),
    ensures
        forall|i: int|
            0 <= i < history.recent(n).len() && #[trigger] history.recent(n)[i] == earlier
                ==> exists|j: int| 0 <= j < i && #[trigger] history.recent(n)[j] == later,
        history.record(row, max_history).rows.contains(earlier) ==> history.record(
            row,
            max_history,
        ).rows.contains(later),
{
    crate::timestamp::law_written_texts_sort_by_time(
        earlier_start,
        earlier.started_at,
        later_start,
        later.started_at,
    );
    crate::row::law_start_then_id_decides(later, earlier);
    let listing = history.recent(n);
    law_recent_lists_the_newest(history, n);
    assert forall|i: int| 0 <= i < listing.len() && #[trigger] listing[i] == earlier implies exists|
        j: int,
    |
        0 <= j < i && #[trigger] listing[j] == later by {
        if !listing.contains(later) {
            assert(listing[i].newer_than(later));
            assert(false);
        }
        let j = listing.index_of(later);
        if j > i {
            assert(listing[i].newer_than(listing[j]));
        } else if j == i {
            law_row_order_is_total(later, later, later);
        }
        assert(listing[j] == later);
    }
    let inserted = history.insert(row);
    crate::history::law_history_stays_valid(history, row, max_history);
    law_prune_keeps_the_newest(inserted, HistoryView::at_least_one(max_history));
    assert(inserted.rows[history.rows.index_of(later)] == later);
    assert(inserted.rows.contains(later));
}

} // verus!
