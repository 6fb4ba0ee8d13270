//! The mathematical model of the store: predicates and functions over the
//! sequence of task rows and the sequence of lists that the contracts of
//! [`crate::store::Store`] and [`crate::tasks::TaskStack`] are stated in.

use vstd::prelude::*;

use crate::order::{hist_le, sorted_rows, RowOrder};
use crate::store::TaskRow;
use crate::tasks::{Task, TaskList, TaskState};
use crate::text::blank;

verus! {

/// How long a completed task stays in the "current" view: a 12-hour
/// trailing window, measured against the wall clock at query time.
pub const CURRENT_WINDOW_MILLIS: i64 = 12 * 60 * 60 * 1000;

/// The row belongs to the given list.
pub open spec fn in_list(row: TaskRow, list_id: u128) -> bool {
    row.task.list_id == list_id
}

/// The row is an `Active` task of the given list.
pub open spec fn active_in_list(row: TaskRow, list_id: u128) -> bool {
    row.task.list_id == list_id && row.task.state is Active
}

/// A completion time is inside the trailing visibility window at `now`.
pub open spec fn in_window(completed_at: int, now: int) -> bool {
    completed_at >= now - CURRENT_WINDOW_MILLIS
}

/// The row shows in the "current" view of the given list at `now`: it is
/// active, or was completed within the last twelve hours.
pub open spec fn current_in_list(row: TaskRow, list_id: u128, now: i64) -> bool {
    &&& in_list(row, list_id)
    &&& (row.task.state is Active || in_window(row.task.completed_at->0 as int, now as int))
}

/// A single row is well formed: its state machine is coherent and its
/// title is not blank.
pub open spec fn row_ok(row: TaskRow) -> bool {
    row.task.inv() && !blank(row.task.title@)
}

/// The task table is well formed: every row is, and ids are unique.
pub open spec fn rows_wf(rows: Seq<TaskRow>) -> bool {
    &&& forall|i: int| 0 <= i < rows.len() ==> #[trigger] row_ok(rows[i])
    &&& forall|i: int, j: int|
        0 <= i < j < rows.len() ==> #[trigger] rows[i].task.id != #[trigger] rows[j].task.id
}

/// The list table is well formed: names are not blank and ids are unique.
pub open spec fn lists_wf(lists: Seq<TaskList>) -> bool {
    &&& forall|i: int| 0 <= i < lists.len() ==> !blank(#[trigger] lists[i].name@)
    &&& forall|i: int, j: int|
        0 <= i < j < lists.len() ==> #[trigger] lists[i].id != #[trigger] lists[j].id
}

/// Some row carries a task with this id.
pub open spec fn has_task_id(rows: Seq<TaskRow>, id: u128) -> bool {
    exists|i: int| 0 <= i < rows.len() && #[trigger] rows[i].task.id == id
}

/// Some row of the given list carries a task with this id.
pub open spec fn has_task_in_list(rows: Seq<TaskRow>, list_id: u128, id: u128) -> bool {
    exists|i: int|
        0 <= i < rows.len() && in_list(#[trigger] rows[i], list_id) && rows[i].task.id == id
}

/// Some list row has this id.
pub open spec fn has_list_id(lists: Seq<TaskList>, id: u128) -> bool {
    exists|i: int| 0 <= i < lists.len() && #[trigger] lists[i].id == id
}

/// Which rows a query keeps: every row of the list, only the active
/// ones, or the "current" view at a given time.
#[derive(Clone, Copy, Debug)]
pub enum RowFilter {
    All,
    Active,
    Current(i64),
}

/// Whether a row passes the filter for the given list.
pub open spec fn row_pass(f: RowFilter, row: TaskRow, list_id: u128) -> bool {
    match f {
        RowFilter::All => in_list(row, list_id),
        RowFilter::Active => active_in_list(row, list_id),
        RowFilter::Current(now) => current_in_list(row, list_id, now),
    }
}

/// The subsequence of rows that pass the filter, in store order.
pub open spec fn filtered(rows: Seq<TaskRow>, f: RowFilter, list_id: u128) -> Seq<TaskRow>
    decreases rows.len(),
{
    if rows.len() == 0 {
        Seq::empty()
    } else {
        let rest = filtered(rows.drop_last(), f, list_id);
        if row_pass(f, rows.last(), list_id) {
            rest.push(rows.last())
        } else {
            rest
        }
    }
}

/// The filtered rows are exactly the rows that pass: each kept row passes
/// and comes from the table, and each passing row is kept.
pub proof fn lemma_filtered(rows: Seq<TaskRow>, f: RowFilter, list_id: u128)
    ensures
        filtered(rows, f, list_id).len() <= rows.len(),
        forall|k: int|
            0 <= k < filtered(rows, f, list_id).len() ==> row_pass(
                f,
                #[trigger] filtered(rows, f, list_id)[k],
                list_id,
            ) && rows.contains(filtered(rows, f, list_id)[k]),
        forall|i: int|
            0 <= i < rows.len() && row_pass(f, #[trigger] rows[i], list_id) ==> filtered(
                rows,
                f,
                list_id,
            ).contains(rows[i]),
    decreases rows.len(),
{
    if rows.len() > 0 {
        lemma_filtered(rows.drop_last(), f, list_id);
        let out = filtered(rows, f, list_id);
        let rest = filtered(rows.drop_last(), f, list_id);
        assert forall|k: int|
            0 <= k < out.len() implies row_pass(f, #[trigger] out[k], list_id) && rows.contains(
            out[k],
        ) by {
            if k < rest.len() {
                let i = choose|i: int|
                    0 <= i < rows.drop_last().len() && rows.drop_last()[i] == rest[k];
                assert(rows[i] == rest[k]);
            } else {
                assert(rows[rows.len() - 1] == out[k]);
            }
        }
        assert forall|i: int|
            0 <= i < rows.len() && row_pass(f, #[trigger] rows[i], list_id) implies out.contains(
            rows[i],
        ) by {
            if i < rows.len() - 1 {
                assert(rows.drop_last()[i] == rows[i]);
                let k = choose|k: int| 0 <= k < rest.len() && rest[k] == rows[i];
                assert(out[k] == rows[i]);
            } else {
                assert(out[out.len() - 1] == rows[i]);
            }
        }
    }
}

/// A permutation of the filtered rows holds exactly the rows that pass
/// the filter: each of its rows passes and comes from the table, and
/// every passing row of the table appears in it.
pub proof fn lemma_filter_permutation(
    rows: Seq<TaskRow>,
    f: RowFilter,
    list_id: u128,
    r: Seq<TaskRow>,
)
    requires
        r.to_multiset() == filtered(rows, f, list_id).to_multiset(),
    ensures
        forall|k: int|
            0 <= k < r.len() ==> row_pass(f, #[trigger] r[k], list_id) && rows.contains(r[k]),
        forall|i: int|
            0 <= i < rows.len() && row_pass(f, #[trigger] rows[i], list_id) ==> r.contains(
                rows[i],
            ),
{
    broadcast use vstd::seq_lib::group_to_multiset_ensures;

    lemma_filtered(rows, f, list_id);
    let fl = filtered(rows, f, list_id);
    assert forall|k: int|
        0 <= k < r.len() implies row_pass(f, #[trigger] r[k], list_id) && rows.contains(r[k]) by {
        assert(r.contains(r[k]));
        assert(r.to_multiset().count(r[k]) > 0);
        assert(fl.contains(r[k]));
        let m = choose|m: int| 0 <= m < fl.len() && fl[m] == r[k];
        assert(row_pass(f, fl[m], list_id));
    }
    assert forall|i: int|
        0 <= i < rows.len() && row_pass(f, #[trigger] rows[i], list_id) implies r.contains(
        rows[i],
    ) by {
        assert(fl.contains(rows[i]));
        assert(fl.to_multiset().count(rows[i]) > 0);
    }
}

/// How many rows belong to the given list, in any state.
pub open spec fn count_in_list(rows: Seq<TaskRow>, list_id: u128) -> nat {
    filtered(rows, RowFilter::All, list_id).len()
}

/// The given list has at least one active task.
pub open spec fn has_active(rows: Seq<TaskRow>, list_id: u128) -> bool {
    exists|i: int| 0 <= i < rows.len() && active_in_list(#[trigger] rows[i], list_id)
}

/// Index `i` holds the first active task of the list: an active row of
/// minimal position, and the earliest such row, so ties on equal positions
/// break by insertion order.
pub open spec fn is_first_active(rows: Seq<TaskRow>, list_id: u128, i: int) -> bool {
    &&& 0 <= i < rows.len()
    &&& active_in_list(rows[i], list_id)
    &&& forall|j: int|
        0 <= j < rows.len() && active_in_list(#[trigger] rows[j], list_id)
            ==> rows[i].position <= rows[j].position
    &&& forall|j: int|
        0 <= j < i && active_in_list(#[trigger] rows[j], list_id)
            ==> rows[i].position < rows[j].position
}

/// Where the row with the given task id stands in the table. Ids are
/// unique under [`rows_wf`], so whenever [`has_task_in_list`] holds there
/// is exactly one such index.
pub open spec fn task_index(rows: Seq<TaskRow>, list_id: u128, id: u128) -> int {
    choose|i: int|
        0 <= i < rows.len() && in_list(#[trigger] rows[i], list_id) && rows[i].task.id == id
}

/// Under unique ids, any in-list witness for this id is the one
/// [`task_index`] picks.
pub proof fn lemma_task_index(rows: Seq<TaskRow>, list_id: u128, id: u128, k: int)
    requires
        rows_wf(rows),
        0 <= k < rows.len(),
        in_list(rows[k], list_id),
        rows[k].task.id == id,
    ensures
        has_task_in_list(rows, list_id, id),
        task_index(rows, list_id, id) == k,
{
    assert(has_task_in_list(rows, list_id, id));
    let i = task_index(rows, list_id, id);
    assert(0 <= i < rows.len() && in_list(rows[i], list_id) && rows[i].task.id == id);
    if i != k {
        if i < k {
            assert(rows[i].task.id != rows[k].task.id);
        } else {
            assert(rows[k].task.id != rows[i].task.id);
        }
    }
}

/// The first active index of a list is unique: the position bounds and
/// the strict tie-break leave room for only one.
pub proof fn lemma_first_active_unique(rows: Seq<TaskRow>, list_id: u128, i1: int, i2: int)
    requires
        is_first_active(rows, list_id, i1),
        is_first_active(rows, list_id, i2),
    ensures
        i1 == i2,
{
    if i1 < i2 {
        assert(rows[i2].position < rows[i1].position);
        assert(rows[i1].position <= rows[i2].position);
    } else if i2 < i1 {
        assert(rows[i1].position < rows[i2].position);
        assert(rows[i2].position <= rows[i1].position);
    }
}

/// The row as it stands after being completed at `now`.
pub open spec fn completed_row(row: TaskRow, now: i64) -> TaskRow {
    TaskRow {
        task: Task { state: TaskState::Completed, completed_at: Some(now), ..row.task },
        position: row.position,
    }
}

/// A description is stored as given, except that a blank one is treated
/// as absent.
pub open spec fn normalized_description(d: Option<String>) -> Option<String> {
    match d {
        Some(s) => if blank(s@) {
            None
        } else {
            Some(s)
        },
        None => None,
    }
}

/// `out` is the task-only projection of some reordering `rs` of the rows
/// passing filter `f`, sorted in order `o`: what a query hands the
/// presentation layer.
pub open spec fn projection(
    rows: Seq<TaskRow>,
    f: RowFilter,
    o: RowOrder,
    list_id: u128,
    rs: Seq<TaskRow>,
    out: Seq<Task>,
) -> bool {
    &&& rs.to_multiset() == filtered(rows, f, list_id).to_multiset()
    &&& sorted_rows(o, rs)
    &&& out.len() == rs.len()
    &&& forall|k: int| 0 <= k < rs.len() ==> out[k] == (#[trigger] rs[k]).task
}

/// `t` was cut from the bottom of the list's history: it is an in-list
/// row above every other row of the list in the historical order, and
/// `rest` is the table without it.
pub open spec fn popped(rows: Seq<TaskRow>, list_id: u128, t: Task, rest: Seq<TaskRow>) -> bool {
    exists|i: int|
        {
            &&& 0 <= i < rows.len()
            &&& in_list(#[trigger] rows[i], list_id)
            &&& rows[i].task == t
            &&& rest == rows.remove(i)
            &&& forall|j: int|
                0 <= j < rows.len() && in_list(#[trigger] rows[j], list_id) ==> hist_le(
                    rows[j],
                    rows[i],
                )
        }
}

/// `t` heads the list's history: an in-list row below every other row of
/// the list in the historical order.
pub open spec fn first_in_history(rows: Seq<TaskRow>, list_id: u128, t: Task) -> bool {
    exists|i: int|
        {
            &&& 0 <= i < rows.len()
            &&& in_list(#[trigger] rows[i], list_id)
            &&& rows[i].task == t
            &&& forall|j: int|
                0 <= j < rows.len() && in_list(#[trigger] rows[j], list_id) ==> hist_le(
                    rows[i],
                    rows[j],
                )
        }
}

/// The greatest position among the list's rows, or `None` when the list
/// holds no row.
pub open spec fn max_position(rows: Seq<TaskRow>, list_id: u128) -> Option<int>
    decreases rows.len(),
{
    if rows.len() == 0 {
        None
    } else {
        let p = rows.last().position as int;
        match max_position(rows.drop_last(), list_id) {
            None => if in_list(rows.last(), list_id) {
                Some(p)
            } else {
                None
            },
            Some(m) => if in_list(rows.last(), list_id) && p > m {
                Some(p)
            } else {
                Some(m)
            },
        }
    }
}

/// The highest position of the list, with the empty list read as 0: the
/// base that `move_to_end` builds on.
pub open spec fn highest_position(rows: Seq<TaskRow>, list_id: u128) -> int {
    match max_position(rows, list_id) {
        None => 0,
        Some(m) => m,
    }
}

/// What [`max_position`] promises: it is `Some` exactly when the list has
/// a row, it bounds every position of the list, and it is attained.
pub proof fn lemma_max_position(rows: Seq<TaskRow>, list_id: u128)
    ensures
        max_position(rows, list_id) is Some <==> exists|i: int|
            0 <= i < rows.len() && in_list(#[trigger] rows[i], list_id),
        forall|i: int|
            0 <= i < rows.len() && in_list(#[trigger] rows[i], list_id)
                ==> rows[i].position as int <= highest_position(rows, list_id),
        max_position(rows, list_id) matches Some(m) ==> exists|i: int|
            0 <= i < rows.len() && in_list(#[trigger] rows[i], list_id) && rows[i].position as int
                == m,
    decreases rows.len(),
{
    if rows.len() > 0 {
        lemma_max_position(rows.drop_last(), list_id);
        assert forall|i: int|
            0 <= i < rows.len() && in_list(#[trigger] rows[i], list_id) implies rows[i].position
            as int <= highest_position(rows, list_id) by {
            if i < rows.len() - 1 {
                assert(rows.drop_last()[i] == rows[i]);
            }
        }
        if max_position(rows, list_id) is Some {
            let m = max_position(rows, list_id)->0;
            if in_list(rows.last(), list_id) && rows.last().position as int == m {
                assert(rows[rows.len() - 1].position as int == m);
            } else {
                let i = choose|i: int|
                    0 <= i < rows.drop_last().len() && in_list(
                        #[trigger] rows.drop_last()[i],
                        list_id,
                    ) && rows.drop_last()[i].position as int == m;
                assert(rows[i] == rows.drop_last()[i]);
            }
        }
        if exists|i: int| 0 <= i < rows.len() && in_list(#[trigger] rows[i], list_id) {
            let i = choose|i: int| 0 <= i < rows.len() && in_list(#[trigger] rows[i], list_id);
            if i < rows.len() - 1 {
                assert(rows.drop_last()[i] == rows[i]);
            }
        }
    }
}

} // verus!
