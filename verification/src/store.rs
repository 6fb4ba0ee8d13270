//! The persistent store: the authoritative record of task and list rows.
//!
//! This is the table the engine reads and writes; the surrounding
//! application is responsible for carrying it to and from durable
//! storage. Every operation is a single-row read or write with an exact
//! contract, mirroring single-statement transactions: a write either
//! lands whole or, on a constraint failure, leaves the store unchanged.

use vstd::prelude::*;

use crate::error::TaskError;
use crate::model::{
    active_in_list, count_in_list, filtered, has_active, has_list_id, has_task_id,
    highest_position, in_list, is_first_active, lists_wf, max_position,
    row_ok, row_pass, rows_wf, RowFilter,
};
use crate::order::{sort_rows, sorted_rows, RowOrder};
use crate::tasks::{Task, TaskList, TaskState};
use crate::text::blank;

verus! {

/// One row of the task table: the task together with its sparse ordering
/// position among the active tasks of its list.
#[derive(Debug)]
pub struct TaskRow {
    pub task: Task,
    /// Ordering key among the active tasks of the owning list; sparse,
    /// not necessarily contiguous, and not meaningful for completed rows.
    pub position: i64,
}

impl Clone for TaskRow {
    fn clone(&self) -> (r: Self)
        ensures
            r == *self,
    {
        TaskRow { task: self.task.clone(), position: self.position }
    }
}

/// The two tables: tasks with their positions, and lists.
#[derive(Debug)]
pub struct Store {
    tasks: Vec<TaskRow>,
    lists: Vec<TaskList>,
}

impl Store {
    /// The task table, in insertion order.
    pub closed spec fn task_rows(&self) -> Seq<TaskRow> {
        self.tasks@
    }

    /// The list table, in insertion order.
    pub closed spec fn list_rows(&self) -> Seq<TaskList> {
        self.lists@
    }

    /// Both tables are well formed: rows coherent, ids unique, required
    /// text not blank.
    pub open spec fn wf(&self) -> bool {
        rows_wf(self.task_rows()) && lists_wf(self.list_rows())
    }

    /// An empty store; the counterpart of creating the schema.
    pub fn new() -> (s: Store)
        ensures
            s.wf(),
            s.task_rows() == Seq::<TaskRow>::empty(),
            s.list_rows() == Seq::<TaskList>::empty(),
    {
        Store { tasks: Vec::new(), lists: Vec::new() }
    }

    /// The index of the task row with this id, if any.
    fn find_task_index(&self, id: u128) -> (r: Option<usize>)
        ensures
            match r {
                Some(i) => i < self.task_rows().len() && self.task_rows()[i as int].task.id == id,
                None => !has_task_id(self.task_rows(), id),
            },
    {
        let mut i: usize = 0;
        while i < self.tasks.len()
            invariant
                i <= self.task_rows().len(),
                forall|j: int| 0 <= j < i ==> (#[trigger] self.task_rows()[j]).task.id != id,
            decreases self.task_rows().len() - i,
        {
            if self.tasks[i].task.id == id {
                return Some(i);
            }
            i += 1;
        }
        None
    }

    /// The index of the list row with this id, if any.
    fn find_list_index(&self, id: u128) -> (r: Option<usize>)
        ensures
            match r {
                Some(i) => i < self.list_rows().len() && self.list_rows()[i as int].id == id,
                None => !has_list_id(self.list_rows(), id),
            },
    {
        let mut i: usize = 0;
        while i < self.lists.len()
            invariant
                i <= self.list_rows().len(),
                forall|j: int| 0 <= j < i ==> (#[trigger] self.list_rows()[j]).id != id,
            decreases self.list_rows().len() - i,
        {
            if self.lists[i].id == id {
                return Some(i);
            }
            i += 1;
        }
        None
    }

    /// Writes a new task row. Fails, leaving the store unchanged, when a
    /// row with the same id already exists.
    pub fn insert_task(&mut self, task: Task, position: i64) -> (r: Result<(), TaskError>)
        requires
            old(self).wf(),
            task.inv(),
            !blank(task.title@),
        ensures
            final(self).wf(),
            final(self).list_rows() == old(self).list_rows(),
            has_task_id(old(self).task_rows(), task.id) ==> r == Err::<(), TaskError>(
                TaskError::Store,
            ) && final(self).task_rows() == old(self).task_rows(),
            !has_task_id(old(self).task_rows(), task.id) ==> r == Ok::<(), TaskError>(())
                && final(self).task_rows() == old(self).task_rows().push(
                (TaskRow { task, position }),
            ),
    {
        if self.find_task_index(task.id).is_some() {
            return Err(TaskError::Store);
        }
        proof {
            let rows = self.task_rows().push(TaskRow { task, position });
            assert forall|i: int, j: int|
                0 <= i < j < rows.len() implies #[trigger] rows[i].task.id
                != #[trigger] rows[j].task.id by {
                if j < rows.len() - 1 {
                    assert(rows[i] == old(self).task_rows()[i]);
                    assert(rows[j] == old(self).task_rows()[j]);
                } else {
                    assert(rows[i] == old(self).task_rows()[i]);
                    assert(rows[j].task.id == task.id);
                }
            }
            assert(forall|i: int| 0 <= i < rows.len() - 1 ==> rows[i] == old(self).task_rows()[i]);
        }
        self.tasks.push(TaskRow { task, position });
        Ok(())
    }

    /// The rows of the list that pass the filter, in store order.
    fn filter_rows(&self, f: RowFilter, list_id: u128) -> (r: Vec<TaskRow>)
        requires
            self.wf(),
        ensures
            r@ == filtered(self.task_rows(), f, list_id),
    {
        let rows = &self.tasks;
        let mut out: Vec<TaskRow> = Vec::new();
        let mut i: usize = 0;
        proof {
            assert(self.task_rows().take(0) =~= Seq::<TaskRow>::empty());
        }
        while i < rows.len()
            invariant
                i <= rows@.len(),
                rows@ == self.task_rows(),
                self.wf(),
                out@ == filtered(rows@.take(i as int), f, list_id),
            decreases rows@.len() - i,
        {
            let row = &rows[i];
            proof {
                assert(row_ok(rows@[i as int]));
            }
            let keep = match f {
                RowFilter::All => row.task.list_id == list_id,
                RowFilter::Active => row.task.list_id == list_id && !row_is_completed(row),
                RowFilter::Current(now) => row.task.list_id == list_id && (!row_is_completed(row)
                    || completed_in_window(row, now)),
            };
            proof {
                assert(rows@.take(i + 1).drop_last() =~= rows@.take(i as int));
                assert(rows@.take(i + 1).last() == rows@[i as int]);
            }
            if keep {
                out.push(row.clone());
            }
            i += 1;
        }
        proof {
            assert(rows@.take(rows@.len() as int) =~= rows@);
        }
        out
    }

    /// Every row of the list: completed tasks first, most recently
    /// completed on top, then active tasks in position order. The result
    /// is a sorted permutation of the list's rows.
    pub fn get_all_tasks(&self, list_id: u128) -> (r: Vec<TaskRow>)
        requires
            self.wf(),
        ensures
            r@.to_multiset() == filtered(self.task_rows(), RowFilter::All, list_id).to_multiset(),
            sorted_rows(RowOrder::History, r@),
            r@.len() == count_in_list(self.task_rows(), list_id),
            forall|k: int| 0 <= k < r@.len() ==> in_list(#[trigger] r@[k], list_id),
            forall|k: int| 0 <= k < r@.len() ==> (#[trigger] r@[k]).task.inv(),
    {
        let v = self.filter_rows(RowFilter::All, list_id);
        proof {
            lemma_query_elements(self.task_rows(), RowFilter::All, list_id, v@);
        }
        let r = sort_rows(RowOrder::History, v);
        proof {
            lemma_query_elements(self.task_rows(), RowFilter::All, list_id, r@);
        }
        r
    }

    /// The "current" view of the list at `now`: every active task, plus
    /// completed tasks whose completion time lies within the trailing
    /// window, in position order.
    pub fn get_current_tasks(&self, list_id: u128, now: i64) -> (r: Vec<TaskRow>)
        requires
            self.wf(),
        ensures
            r@.to_multiset() == filtered(
                self.task_rows(),
                RowFilter::Current(now),
                list_id,
            ).to_multiset(),
            sorted_rows(RowOrder::ByPosition, r@),
            forall|k: int|
                0 <= k < r@.len() ==> crate::model::current_in_list(#[trigger] r@[k], list_id, now),
            forall|k: int| 0 <= k < r@.len() ==> (#[trigger] r@[k]).task.inv(),
    {
        let v = self.filter_rows(RowFilter::Current(now), list_id);
        proof {
            lemma_query_elements(self.task_rows(), RowFilter::Current(now), list_id, v@);
        }
        let r = sort_rows(RowOrder::ByPosition, v);
        proof {
            lemma_query_elements(self.task_rows(), RowFilter::Current(now), list_id, r@);
        }
        r
    }

    /// The active tasks of the list, in position order.
    pub fn get_active_tasks(&self, list_id: u128) -> (r: Vec<TaskRow>)
        requires
            self.wf(),
        ensures
            r@.to_multiset() == filtered(
                self.task_rows(),
                RowFilter::Active,
                list_id,
            ).to_multiset(),
            sorted_rows(RowOrder::ByPosition, r@),
            forall|k: int| 0 <= k < r@.len() ==> active_in_list(#[trigger] r@[k], list_id),
            forall|k: int| 0 <= k < r@.len() ==> (#[trigger] r@[k]).task.inv(),
    {
        let v = self.filter_rows(RowFilter::Active, list_id);
        proof {
            lemma_query_elements(self.task_rows(), RowFilter::Active, list_id, v@);
        }
        let r = sort_rows(RowOrder::ByPosition, v);
        proof {
            lemma_query_elements(self.task_rows(), RowFilter::Active, list_id, r@);
        }
        r
    }

    /// The single active task of the list with the smallest position, or
    /// `None` when the list has no active task. Ties on equal positions
    /// go to the earliest inserted row.
    pub fn get_first_active_task(&self, list_id: u128) -> (r: Option<Task>)
        requires
            self.wf(),
        ensures
            r is Some <==> has_active(self.task_rows(), list_id),
            r matches Some(t) ==> exists|i: int|
                is_first_active(self.task_rows(), list_id, i) && t == self.task_rows()[i].task,
    {
        let rows = &self.tasks;
        let mut best: Option<usize> = None;
        let mut i: usize = 0;
        while i < rows.len()
            invariant
                i <= rows@.len(),
                rows@ == self.task_rows(),
                match best {
                    None => forall|j: int|
                        0 <= j < i ==> !active_in_list(#[trigger] rows@[j], list_id),
                    Some(b) => {
                        &&& b < i
                        &&& active_in_list(rows@[b as int], list_id)
                        &&& forall|j: int|
                            0 <= j < i && active_in_list(#[trigger] rows@[j], list_id)
                                ==> rows@[b as int].position <= rows@[j].position
                        &&& forall|j: int|
                            0 <= j < b && active_in_list(#[trigger] rows@[j], list_id)
                                ==> rows@[b as int].position < rows@[j].position
                    },
                },
            decreases rows@.len() - i,
        {
            let row = &rows[i];
            if row.task.list_id == list_id && !row_is_completed(row) {
                match best {
                    None => {
                        best = Some(i);
                    },
                    Some(b) => {
                        if row.position < rows[b].position {
                            best = Some(i);
                        }
                    },
                }
            }
            i += 1;
        }
        match best {
            Some(b) => {
                proof {
                    assert(is_first_active(self.task_rows(), list_id, b as int));
                }
                Some(rows[b].task.clone())
            },
            None => None,
        }
    }

    /// Sets state and completion time atomically for the row with this
    /// id; a store with no such row is left unchanged. The pair must be
    /// coherent: a completion time exactly when the state is `Completed`.
    pub fn update_task_state(&mut self, id: u128, state: TaskState, completed_at: Option<i64>)
        requires
            old(self).wf(),
            state is Completed <==> completed_at is Some,
        ensures
            final(self).wf(),
            final(self).list_rows() == old(self).list_rows(),
            !has_task_id(old(self).task_rows(), id) ==> final(self).task_rows() == old(self).task_rows(),
            has_task_id(old(self).task_rows(), id) ==> exists|i: int|
                0 <= i < old(self).task_rows().len() && (#[trigger] old(self).task_rows()[i]).task.id == id && final(self).task_rows() == old(self).task_rows().update(
                    i,
                    (TaskRow {
                        task: Task { state, completed_at, ..old(self).task_rows()[i].task },
                        position: old(self).task_rows()[i].position,
                    }),
                ),
    {
        let idx = self.find_task_index(id);
        match idx {
            None => {
            },
            Some(i) => {
                proof {
                    assert(row_ok(self.task_rows()[i as int]));
                }
                self.tasks[i].task.state = state;
                self.tasks[i].task.completed_at = completed_at;
                proof {
                    let rows = old(self).task_rows();
                    let updated = TaskRow {
                        task: Task { state, completed_at, ..rows[i as int].task },
                        position: rows[i as int].position,
                    };
                    assert(self.task_rows() =~= rows.update(i as int, updated));
                    assert forall|p: int, q: int|
                        0 <= p < q < self.task_rows().len() implies #[trigger] self.task_rows()[p].task.id
                        != #[trigger] self.task_rows()[q].task.id by {
                        assert(rows[p].task.id != rows[q].task.id);
                    }
                    assert forall|p: int|
                        0 <= p < self.task_rows().len() implies #[trigger] row_ok(
                        self.task_rows()[p],
                    ) by {
                        assert(row_ok(rows[p]));
                    }
                }
            },
        }
    }

    /// Sets the ordering position atomically for the row with this id; a
    /// store with no such row is left unchanged.
    pub fn update_task_position(&mut self, id: u128, position: i64)
        requires
            old(self).wf(),
        ensures
            final(self).wf(),
            final(self).list_rows() == old(self).list_rows(),
            !has_task_id(old(self).task_rows(), id) ==> final(self).task_rows() == old(self).task_rows(),
            has_task_id(old(self).task_rows(), id) ==> exists|i: int|
                0 <= i < old(self).task_rows().len() && (#[trigger] old(self).task_rows()[i]).task.id == id && final(self).task_rows() == old(self).task_rows().update(
                    i,
                    (TaskRow { task: old(self).task_rows()[i].task, position }),
                ),
    {
        let idx = self.find_task_index(id);
        match idx {
            None => {
            },
            Some(i) => {
                self.tasks[i].position = position;
                proof {
                    let rows = old(self).task_rows();
                    let updated = TaskRow { task: rows[i as int].task, position };
                    assert(self.task_rows() =~= rows.update(i as int, updated));
                    assert forall|p: int, q: int|
                        0 <= p < q < self.task_rows().len() implies #[trigger] self.task_rows()[p].task.id
                        != #[trigger] self.task_rows()[q].task.id by {
                        assert(rows[p].task.id != rows[q].task.id);
                    }
                    assert forall|p: int|
                        0 <= p < self.task_rows().len() implies #[trigger] row_ok(
                        self.task_rows()[p],
                    ) by {
                        assert(row_ok(rows[p]));
                    }
                }
            },
        }
    }

    /// Removes the row with this id; a store with no such row is left
    /// unchanged.
    pub fn delete_task(&mut self, id: u128)
        requires
            old(self).wf(),
        ensures
            final(self).wf(),
            final(self).list_rows() == old(self).list_rows(),
            !has_task_id(old(self).task_rows(), id) ==> final(self).task_rows() == old(self).task_rows(),
            has_task_id(old(self).task_rows(), id) ==> exists|i: int|
                0 <= i < old(self).task_rows().len() && (#[trigger] old(self).task_rows()[i]).task.id == id && final(self).task_rows() == old(self).task_rows().remove(i),
    {
        let idx = self.find_task_index(id);
        match idx {
            None => {
            },
            Some(i) => {
                self.tasks.remove(i);
                proof {
                    let rows = old(self).task_rows();
                    rows.remove_ensures(i as int);
                    assert forall|p: int, q: int|
                        0 <= p < q < self.task_rows().len() implies #[trigger] self.task_rows()[p].task.id
                        != #[trigger] self.task_rows()[q].task.id by {
                        let p0 = if p < i { p } else { p + 1 };
                        let q0 = if q < i { q } else { q + 1 };
                        assert(self.task_rows()[p] == rows[p0]);
                        assert(self.task_rows()[q] == rows[q0]);
                        assert(rows[p0].task.id != rows[q0].task.id);
                    }
                    assert forall|p: int|
                        0 <= p < self.task_rows().len() implies #[trigger] row_ok(
                        self.task_rows()[p],
                    ) by {
                        let p0 = if p < i { p } else { p + 1 };
                        assert(self.task_rows()[p] == rows[p0]);
                        assert(row_ok(rows[p0]));
                    }
                }
            },
        }
    }

    /// The ids of every list, in insertion order.
    pub fn get_lists(&self) -> (r: Vec<u128>)
        ensures
            r@.len() == self.list_rows().len(),
            forall|i: int| 0 <= i < r@.len() ==> r@[i] == (#[trigger] self.list_rows()[i]).id,
    {
        let mut out: Vec<u128> = Vec::new();
        let mut i: usize = 0;
        while i < self.lists.len()
            invariant
                i <= self.list_rows().len(),
                out@.len() == i,
                forall|j: int| 0 <= j < i ==> out@[j] == (#[trigger] self.list_rows()[j]).id,
            decreases self.list_rows().len() - i,
        {
            out.push(self.lists[i].id);
            i += 1;
        }
        out
    }

    /// Every list row, in insertion order.
    pub fn all_lists(&self) -> (r: Vec<TaskList>)
        ensures
            r@ == self.list_rows(),
    {
        let mut out: Vec<TaskList> = Vec::new();
        let mut i: usize = 0;
        proof {
            assert(out@ =~= self.list_rows().take(0));
        }
        while i < self.lists.len()
            invariant
                i <= self.list_rows().len(),
                out@ == self.list_rows().take(i as int),
            decreases self.list_rows().len() - i,
        {
            out.push(self.lists[i].clone());
            proof {
                assert(out@ =~= self.list_rows().take(i + 1));
            }
            i += 1;
        }
        proof {
            assert(self.list_rows().take(self.list_rows().len() as int) =~= self.list_rows());
        }
        out
    }

    /// Writes a new list row under the given id and creation time.
    /// Rejects a blank name, and fails on a colliding id; either failure
    /// leaves the store unchanged.
    pub fn create_list_with(&mut self, name: String, id: u128, created_at: i64) -> (r: Result<
        u128,
        TaskError,
    >)
        requires
            old(self).wf(),
        ensures
            final(self).wf(),
            final(self).task_rows() == old(self).task_rows(),
            blank(name@) ==> r == Err::<u128, TaskError>(TaskError::Validation) && final(self).list_rows() == old(self).list_rows(),
            !blank(name@) && has_list_id(old(self).list_rows(), id) ==> r == Err::<
                u128,
                TaskError,
            >(TaskError::Store) && final(self).list_rows() == old(self).list_rows(),
            !blank(name@) && !has_list_id(old(self).list_rows(), id) ==> r == Ok::<
                u128,
                TaskError,
            >(id) && final(self).list_rows() == old(self).list_rows().push(
                (TaskList { id, name, created_at }),
            ),
    {
        if crate::text::is_blank(name.as_str()) {
            return Err(TaskError::Validation);
        }
        if self.find_list_index(id).is_some() {
            return Err(TaskError::Store);
        }
        proof {
            let lists = self.list_rows().push(TaskList { id, name, created_at });
            assert forall|i: int, j: int|
                0 <= i < j < lists.len() implies #[trigger] lists[i].id != #[trigger] lists[j].id by {
                if j < lists.len() - 1 {
                    assert(lists[i] == old(self).list_rows()[i]);
                    assert(lists[j] == old(self).list_rows()[j]);
                } else {
                    assert(lists[i] == old(self).list_rows()[i]);
                }
            }
            assert forall|i: int| 0 <= i < lists.len() implies !blank(
                #[trigger] lists[i].name@,
            ) by {
                if i < lists.len() - 1 {
                    assert(lists[i] == old(self).list_rows()[i]);
                }
            }
        }
        self.lists.push(TaskList { id, name, created_at });
        Ok(id)
    }

    /// Creates a list under a freshly generated id with the current time.
    /// The id is drawn from the clock and randomness, so success cannot be
    /// promised: on the (practically impossible) collision the store is
    /// left unchanged and the constraint failure is surfaced.
    pub fn create_list(&mut self, name: String) -> (r: Result<u128, TaskError>)
        requires
            old(self).wf(),
        ensures
            final(self).wf(),
            final(self).task_rows() == old(self).task_rows(),
            blank(name@) <==> r == Err::<u128, TaskError>(TaskError::Validation),
            r is Ok ==> {
                &&& !has_list_id(old(self).list_rows(), r->Ok_0)
                &&& final(self).list_rows().len() == old(self).list_rows().len() + 1
                &&& final(self).list_rows().drop_last() == old(self).list_rows()
                &&& final(self).list_rows().last().id == r->Ok_0
                &&& final(self).list_rows().last().name == name
            },
            r is Err ==> final(self).list_rows() == old(self).list_rows(),
    {
        let id = crate::idgen::fresh_id();
        let created_at = crate::clock::now_millis();
        let ghost name0 = name;
        let r = self.create_list_with(name, id, created_at);
        proof {
            if !blank(name0@) && !has_list_id(old(self).list_rows(), id) {
                assert(self.list_rows().drop_last() =~= old(self).list_rows());
            }
        }
        r
    }

    /// The greatest ordering position among the list's rows, or 0 when
    /// the list holds none.
    pub fn get_highest_position(&self, list_id: u128) -> (r: i64)
        ensures
            r as int == highest_position(self.task_rows(), list_id),
    {
        let rows = &self.tasks;
        let mut acc: Option<i64> = None;
        let mut i: usize = 0;
        while i < rows.len()
            invariant
                i <= rows@.len(),
                rows@ == self.task_rows(),
                acc is Some <==> max_position(rows@.take(i as int), list_id) is Some,
                acc matches Some(a) ==> a as int == max_position(rows@.take(i as int), list_id)->0,
            decreases rows@.len() - i,
        {
            let row = &rows[i];
            proof {
                assert(rows@.take(i + 1).drop_last() =~= rows@.take(i as int));
                assert(rows@.take(i + 1).last() == rows@[i as int]);
            }
            if row.task.list_id == list_id {
                acc = match acc {
                    None => Some(row.position),
                    Some(a) => if row.position > a {
                        Some(row.position)
                    } else {
                        Some(a)
                    },
                };
            }
            i += 1;
        }
        proof {
            assert(rows@.take(rows@.len() as int) =~= rows@);
        }
        match acc {
            Some(a) => a,
            None => 0,
        }
    }
}

/// Whether the row's task is completed.
fn row_is_completed(row: &TaskRow) -> (r: bool)
    ensures
        r == (row.task.state is Completed),
{
    match row.task.state {
        TaskState::Completed => true,
        TaskState::Active => false,
    }
}

/// Whether a completed row's completion time lies within the trailing
/// window at `now`. The subtraction is carried out in 128-bit arithmetic,
/// which cannot overflow on 64-bit inputs.
fn completed_in_window(row: &TaskRow, now: i64) -> (r: bool)
    requires
        row.task.inv(),
        row.task.state is Completed,
    ensures
        r == crate::model::in_window(row.task.completed_at->0 as int, now as int),
{
    match row.task.completed_at {
        Some(t) => (t as i128) >= (now as i128) - (crate::model::CURRENT_WINDOW_MILLIS as i128),
        None => false,
    }
}

/// Every row of a query result passes the query's filter and is well
/// formed, because the result is a permutation of the filtered rows of a
/// well-formed table.
proof fn lemma_query_elements(rows: Seq<TaskRow>, f: RowFilter, list_id: u128, r: Seq<TaskRow>)
    requires
        rows_wf(rows),
        r.to_multiset() == filtered(rows, f, list_id).to_multiset(),
    ensures
        forall|k: int| 0 <= k < r.len() ==> row_pass(f, #[trigger] r[k], list_id),
        forall|k: int| 0 <= k < r.len() ==> (#[trigger] r[k]).task.inv(),
{
    broadcast use vstd::seq_lib::group_to_multiset_ensures;

    crate::model::lemma_filtered(rows, f, list_id);
    let fl = filtered(rows, f, list_id);
    assert forall|k: int|
        0 <= k < r.len() implies row_pass(f, #[trigger] r[k], list_id) && r[k].task.inv() by {
        assert(r.contains(r[k]));
        assert(r.to_multiset().count(r[k]) > 0);
        assert(fl.contains(r[k]));
        let m = choose|m: int| 0 <= m < fl.len() && fl[m] == r[k];
        assert(row_pass(f, fl[m], list_id));
        assert(rows.contains(fl[m]));
        let i = choose|i: int| 0 <= i < rows.len() && rows[i] == fl[m];
        assert(row_ok(rows[i]));
    }
}

} // verus!
