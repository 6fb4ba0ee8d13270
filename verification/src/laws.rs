//! The library's laws: properties that relate several operations, stated
//! over the same model the operations' contracts use and proved once for
//! all inputs.
//!
//! Each law speaks of the post-state an operation's contract describes
//! (`push_with` appends its row, `complete_task_at` updates one row,
//! `move_to_end` rewrites one position) and concludes what a later query
//! must return by that query's own contract.

use vstd::prelude::*;

use crate::model::{
    completed_row, count_in_list, filtered, has_active, has_task_in_list, highest_position,
    in_list, is_first_active, lemma_filter_permutation, lemma_max_position, lemma_task_index,
    max_position, row_ok, rows_wf, task_index, RowFilter,
};
use crate::store::TaskRow;
use crate::tasks::Task;

verus! {

/// Adding a task at a position strictly below every active position of
/// its list makes it the list's first active task: a following
/// `first_active` returns exactly the added task, its title and `Active`
/// state as given. In particular this holds for every add to a list with
/// no active task, such as the first add to a fresh list, where the
/// position bound is vacuous.
pub proof fn lemma_add_then_first_active(
    rows: Seq<TaskRow>,
    list_id: u128,
    task: Task,
    position: i64,
)
    requires
        forall|j: int|
            0 <= j < rows.len() && crate::model::active_in_list(#[trigger] rows[j], list_id)
                ==> position < rows[j].position,
        task.list_id == list_id,
        task.state is Active,
    ensures
        has_active(rows.push(TaskRow { task, position }), list_id),
        is_first_active(rows.push(TaskRow { task, position }), list_id, rows.len() as int),
        rows.push(TaskRow { task, position })[rows.len() as int].task == task,
{
    let post = rows.push(TaskRow { task, position });
    assert(crate::model::active_in_list(post[rows.len() as int], list_id));
    assert forall|j: int|
        0 <= j < post.len() && crate::model::active_in_list(
            #[trigger] post[j],
            list_id,
        ) implies post[rows.len() as int].position <= post[j].position by {
        if j < rows.len() {
            assert(post[j] == rows[j]);
        }
    }
    assert forall|j: int|
        0 <= j < rows.len() && crate::model::active_in_list(
            #[trigger] post[j],
            list_id,
        ) implies post[rows.len() as int].position < post[j].position by {
        assert(post[j] == rows[j]);
    }
}

/// Positions on add count the list's rows: the first task added to an
/// empty list gets position 0, the next position 1, whatever other lists
/// hold. (`push_with` assigns `count_in_list` as the new position.)
pub proof fn lemma_add_positions(rows: Seq<TaskRow>, list_id: u128, row1: TaskRow, row2: TaskRow)
    requires
        count_in_list(rows, list_id) == 0,
        in_list(row1, list_id),
        in_list(row2, list_id),
    ensures
        count_in_list(rows.push(row1), list_id) == 1,
        count_in_list(rows.push(row1).push(row2), list_id) == 2,
{
    assert(rows.push(row1).drop_last() =~= rows);
    assert(rows.push(row1).push(row2).drop_last() =~= rows.push(row1));
}

/// Completion is terminal. After a task is completed, the same id still
/// names the same row of the list, and that row is `Completed`: by
/// `complete_task`'s contract a second completion of the same task can
/// only fail with `InvalidTransition`, never silently succeed.
pub proof fn lemma_complete_terminal(rows: Seq<TaskRow>, list_id: u128, id: u128, now: i64)
    requires
        rows_wf(rows),
        has_task_in_list(rows, list_id, id),
    ensures
        ({
            let i = task_index(rows, list_id, id);
            let post = rows.update(i, completed_row(rows[i], now));
            &&& rows_wf(post)
            &&& has_task_in_list(post, list_id, id)
            &&& task_index(post, list_id, id) == i
            &&& post[task_index(post, list_id, id)].task.state is Completed
            &&& post[task_index(post, list_id, id)].task.completed_at == Some(now)
        }),
{
    let i = task_index(rows, list_id, id);
    assert(0 <= i < rows.len() && in_list(rows[i], list_id) && rows[i].task.id == id);
    let post = rows.update(i, completed_row(rows[i], now));
    assert(row_ok(rows[i]));
    assert forall|p: int, q: int|
        0 <= p < q < post.len() implies #[trigger] post[p].task.id != #[trigger] post[q].task.id by {
        assert(rows[p].task.id != rows[q].task.id);
    }
    assert forall|p: int| 0 <= p < post.len() implies #[trigger] row_ok(post[p]) by {
        assert(row_ok(rows[p]));
    }
    lemma_task_index(post, list_id, id, i);
}

/// `move_to_end` assigns a position strictly greater than every other
/// row's position in the list, and raises the list's highest position to
/// exactly that value — so repeated moves keep assigning strictly larger
/// positions, moving their task monotonically further back.
pub proof fn lemma_move_to_end_position(rows: Seq<TaskRow>, list_id: u128, id: u128)
    requires
        rows_wf(rows),
        has_task_in_list(rows, list_id, id),
        highest_position(rows, list_id) < i64::MAX,
    ensures
        ({
            let i = task_index(rows, list_id, id);
            let newpos = highest_position(rows, list_id) + 1;
            let post = rows.update(i, (TaskRow { task: rows[i].task, position: newpos as i64 }));
            &&& forall|j: int|
                0 <= j < post.len() && j != i && in_list(#[trigger] post[j], list_id)
                    ==> (post[j].position as int) < newpos
            &&& highest_position(post, list_id) == newpos
        }),
{
    let i = task_index(rows, list_id, id);
    assert(0 <= i < rows.len() && in_list(rows[i], list_id) && rows[i].task.id == id);
    let newpos = highest_position(rows, list_id) + 1;
    let post = rows.update(i, TaskRow { task: rows[i].task, position: newpos as i64 });
    lemma_max_position(rows, list_id);
    assert forall|j: int|
        0 <= j < post.len() && j != i && in_list(#[trigger] post[j], list_id) implies (
    post[j].position as int) < newpos by {
        assert(post[j] == rows[j]);
    }
    lemma_max_position(post, list_id);
    assert(in_list(post[i], list_id));
    assert(post[i].position as int <= highest_position(post, list_id));
    let m = max_position(post, list_id)->0;
    let k = choose|k: int|
        0 <= k < post.len() && in_list(#[trigger] post[k], list_id) && post[k].position as int
            == m;
    if k != i {
        assert(post[k] == rows[k]);
    }
}

/// List scoping: a query answers only for its own list, so for any two
/// distinct lists the rows returned for one never include a task of the
/// other. (The hypothesis is `get_all_tasks`'s own postcondition.)
pub proof fn lemma_all_tasks_scoped(r: Seq<TaskRow>, list_id: u128, other: u128)
    requires
        forall|k: int| 0 <= k < r.len() ==> in_list(#[trigger] r[k], list_id),
        other != list_id,
    ensures
        forall|k: int| 0 <= k < r.len() ==> !in_list(#[trigger] r[k], other),
{
}

/// Round trip: a task just added is reproduced identically by
/// `get_all_tasks` — some element of the query's result is exactly the
/// appended task, no field lost or changed by the write path.
pub proof fn lemma_add_round_trip(
    rows: Seq<TaskRow>,
    list_id: u128,
    task: Task,
    position: i64,
    out: Seq<TaskRow>,
)
    requires
        task.list_id == list_id,
        out.to_multiset() == filtered(
            rows.push(TaskRow { task, position }),
            RowFilter::All,
            list_id,
        ).to_multiset(),
    ensures
        exists|k: int| 0 <= k < out.len() && (#[trigger] out[k]).task == task,
{
    let post = rows.push(TaskRow { task, position });
    lemma_filter_permutation(post, RowFilter::All, list_id, out);
    assert(in_list(post[rows.len() as int], list_id));
    assert(out.contains(post[rows.len() as int]));
    let k = choose|k: int| 0 <= k < out.len() && out[k] == post[rows.len() as int];
    assert(out[k].task == task);
}

} // verus!
