//! The task data model and the queue engine.

use vstd::prelude::*;

use crate::clock::now_millis;
use crate::error::TaskError;
use crate::idgen::fresh_id;
use crate::model::{
    active_in_list, completed_row, count_in_list, first_in_history, has_active, has_list_id,
    has_task_id, has_task_in_list, highest_position, in_list, is_first_active,
    lemma_filter_permutation, lemma_first_active_unique, lemma_task_index, lists_wf,
    normalized_description, popped, projection, row_pass, rows_wf, task_index, RowFilter,
};
use crate::order::{hist_le, row_le, sort_lists, sorted_lists, RowOrder};
use crate::store::{Store, TaskRow};
use crate::text::{blank, is_blank};

verus! {

/// The two states of a task's one-way state machine. `Completed` is
/// terminal: no operation leaves it.
#[derive(Clone, Copy, Debug, PartialEq, Eq, Structural)]
pub enum TaskState {
    Active,
    Completed,
}

/// One work item. `position` is not stored here: it is an ordering key the
/// store keeps with the row (see [`crate::store::TaskRow`]).
#[derive(Debug)]
pub struct Task {
    /// Unique, monotonically sortable identifier (a ULID's 128-bit value).
    pub id: u128,
    /// The owning list; every task belongs to exactly one list.
    pub list_id: u128,
    /// Display text; the engine only stores titles that are not blank.
    pub title: String,
    /// Optional free text; a blank description is stored as absent.
    pub description: Option<String>,
    /// Milliseconds since the Unix epoch; set once at creation.
    pub created_at: i64,
    pub state: TaskState,
    /// Set exactly when the task is completed, never cleared.
    pub completed_at: Option<i64>,
}

impl Task {
    /// Coherence of the state machine with its timestamp: a task is
    /// completed exactly when its completion time is recorded.
    pub open spec fn inv(&self) -> bool {
        self.state is Completed <==> self.completed_at is Some
    }

    /// A fresh `Active` task with a generated id and the current time.
    /// The id comes from the clock and randomness, so nothing relates it
    /// to existing tasks; the store checks uniqueness on insert.
    pub fn new(title: String, list_id: u128) -> (t: Self)
        ensures
            t.title == title,
            t.list_id == list_id,
            t.description is None,
            t.state is Active,
            t.completed_at is None,
            t.inv(),
    {
        Task {
            id: fresh_id(),
            list_id,
            title,
            description: None,
            created_at: now_millis(),
            state: TaskState::Active,
            completed_at: None,
        }
    }

    pub fn title(&self) -> (r: &str)
        ensures
            r@ == self.title@,
    {
        self.title.as_str()
    }

    pub fn description(&self) -> (r: Option<&str>)
        ensures
            r is Some <==> self.description is Some,
            r is Some ==> r->0@ == self.description->0@,
    {
        match &self.description {
            Some(d) => Some(d.as_str()),
            None => None,
        }
    }

    pub fn created_at(&self) -> (r: i64)
        ensures
            r == self.created_at,
    {
        self.created_at
    }

    pub fn completed(&self) -> (r: bool)
        ensures
            r == (self.state is Completed),
    {
        match self.state {
            TaskState::Completed => true,
            TaskState::Active => false,
        }
    }

    pub fn completed_at(&self) -> (r: Option<i64>)
        ensures
            r == self.completed_at,
    {
        self.completed_at
    }

    /// Moves the task to `Completed` and records `now` as its completion
    /// time; every other field is kept.
    pub fn mark_completed_at(&mut self, now: i64)
        ensures
            *final(self) == (Task {
                state: TaskState::Completed,
                completed_at: Some(now),
                ..*old(self)
            }),
            final(self).inv(),
    {
        self.state = TaskState::Completed;
        self.completed_at = Some(now);
    }

    /// [`Self::mark_completed_at`] with the current wall-clock time.
    pub fn mark_completed(&mut self)
        ensures
            final(self).state is Completed,
            final(self).completed_at is Some,
            final(self).id == old(self).id,
            final(self).list_id == old(self).list_id,
            final(self).title == old(self).title,
            final(self).description == old(self).description,
            final(self).created_at == old(self).created_at,
            final(self).inv(),
    {
        let now = now_millis();
        self.mark_completed_at(now);
    }
}

impl Clone for Task {
    fn clone(&self) -> (r: Self)
        ensures
            r == *self,
    {
        Task {
            id: self.id,
            list_id: self.list_id,
            title: self.title.clone(),
            description: match &self.description {
                Some(d) => Some(d.clone()),
                None => None,
            },
            created_at: self.created_at,
            state: self.state,
            completed_at: self.completed_at,
        }
    }
}

/// A named, independent collection of tasks.
#[derive(Debug)]
pub struct TaskList {
    pub id: u128,
    /// Display text; the engine only stores names that are not blank.
    pub name: String,
    /// Milliseconds since the Unix epoch; set once at creation.
    pub created_at: i64,
}

impl Clone for TaskList {
    fn clone(&self) -> (r: Self)
        ensures
            r == *self,
    {
        TaskList { id: self.id, name: self.name.clone(), created_at: self.created_at }
    }
}

/// Which tasks `complete_task` may complete: any active task of the
/// selected list, or, under the stricter queue discipline, only the
/// first active one.
#[derive(Clone, Copy, Debug, PartialEq, Eq, Structural)]
pub enum CompletionPolicy {
    Any,
    FirstOnly,
}

/// The queue engine: the store together with the selected list every
/// operation is scoped to, and the completion policy.
///
/// Exclusive access is expressed through `&mut` receivers: callers that
/// share an engine across handlers put it behind their own lock, so every
/// read-modify-write sequence here (position assignment in particular)
/// runs as one critical section.
#[derive(Debug)]
pub struct TaskStack {
    store: Store,
    list_id: u128,
    policy: CompletionPolicy,
}

impl TaskStack {
    /// The task table of the underlying store.
    pub closed spec fn rows(&self) -> Seq<TaskRow> {
        self.store.task_rows()
    }

    /// The list table of the underlying store.
    pub closed spec fn lists(&self) -> Seq<TaskList> {
        self.store.list_rows()
    }

    /// The list every operation is scoped to.
    pub closed spec fn selected_list(&self) -> u128 {
        self.list_id
    }

    pub closed spec fn completion_policy(&self) -> CompletionPolicy {
        self.policy
    }

    pub open spec fn wf(&self) -> bool {
        rows_wf(self.rows()) && lists_wf(self.lists())
    }

    /// An engine over the given store, scoped to `list_id`, completing
    /// any active task by default.
    pub fn new(store: Store, list_id: u128) -> (s: Self)
        requires
            store.wf(),
        ensures
            s.wf(),
            s.rows() == store.task_rows(),
            s.lists() == store.list_rows(),
            s.selected_list() == list_id,
            s.completion_policy() is Any,
    {
        TaskStack { store, list_id, policy: CompletionPolicy::Any }
    }

    pub fn get_list_id(&self) -> (r: u128)
        ensures
            r == self.selected_list(),
    {
        self.list_id
    }

    /// Selects the list subsequent operations are scoped to.
    pub fn set_list_id(&mut self, list_id: u128)
        ensures
            final(self).selected_list() == list_id,
            final(self).rows() == old(self).rows(),
            final(self).lists() == old(self).lists(),
            final(self).completion_policy() == old(self).completion_policy(),
    {
        self.list_id = list_id;
    }

    /// Switches between completing any active task and the strict
    /// first-task-only discipline.
    pub fn set_completion_policy(&mut self, policy: CompletionPolicy)
        ensures
            final(self).completion_policy() == policy,
            final(self).rows() == old(self).rows(),
            final(self).lists() == old(self).lists(),
            final(self).selected_list() == old(self).selected_list(),
    {
        self.policy = policy;
    }

    /// Appends a task to the selected list under the given id and
    /// creation time. The title must not be blank; a blank description is
    /// stored as absent; the position is the number of rows the list
    /// already holds, so the task lands at the end of the active order.
    /// Fails without effect on a blank title or a colliding id.
    pub fn push_with(
        &mut self,
        title: String,
        description: Option<String>,
        id: u128,
        created_at: i64,
    ) -> (r: Result<(), TaskError>)
        requires
            old(self).wf(),
            count_in_list(old(self).rows(), old(self).selected_list()) <= i64::MAX,
        ensures
            final(self).wf(),
            final(self).lists() == old(self).lists(),
            final(self).selected_list() == old(self).selected_list(),
            final(self).completion_policy() == old(self).completion_policy(),
            blank(title@) ==> r == Err::<(), TaskError>(TaskError::Validation) && final(self).rows() == old(self).rows(),
            !blank(title@) && has_task_id(old(self).rows(), id) ==> r == Err::<(), TaskError>(
                TaskError::Store,
            ) && final(self).rows() == old(self).rows(),
            !blank(title@) && !has_task_id(old(self).rows(), id) ==> r == Ok::<(), TaskError>(())
                && final(self).rows() == old(self).rows().push(
                (TaskRow {
                    task: Task {
                        id,
                        list_id: old(self).selected_list(),
                        title,
                        description: normalized_description(description),
                        created_at,
                        state: TaskState::Active,
                        completed_at: None,
                    },
                    position: count_in_list(old(self).rows(), old(self).selected_list()) as i64,
                }),
            ),
    {
        if is_blank(title.as_str()) {
            return Err(TaskError::Validation);
        }
        let description = match description {
            Some(d) => if is_blank(d.as_str()) {
                None
            } else {
                Some(d)
            },
            None => None,
        };
        let all = self.store.get_all_tasks(self.list_id);
        let position = all.len() as i64;
        let task = Task {
            id,
            list_id: self.list_id,
            title,
            description,
            created_at,
            state: TaskState::Active,
            completed_at: None,
        };
        self.store.insert_task(task, position)
    }

    /// Appends a task to the selected list: a fresh id, the current time,
    /// and the end of the active order. Fails exactly on a blank title,
    /// or without effect on the practically impossible id collision.
    pub fn push(&mut self, title: String, description: Option<String>) -> (r: Result<
        (),
        TaskError,
    >)
        requires
            old(self).wf(),
            count_in_list(old(self).rows(), old(self).selected_list()) <= i64::MAX,
        ensures
            final(self).wf(),
            final(self).lists() == old(self).lists(),
            final(self).selected_list() == old(self).selected_list(),
            final(self).completion_policy() == old(self).completion_policy(),
            blank(title@) <==> r == Err::<(), TaskError>(TaskError::Validation),
            r is Err ==> final(self).rows() == old(self).rows(),
            r is Ok ==> ({
                let row = final(self).rows().last();
                &&& final(self).rows().len() == old(self).rows().len() + 1
                &&& final(self).rows().drop_last() == old(self).rows()
                &&& !has_task_id(old(self).rows(), row.task.id)
                &&& row.task.title == title
                &&& row.task.description == normalized_description(description)
                &&& row.task.list_id == old(self).selected_list()
                &&& row.task.state is Active
                &&& row.task.completed_at is None
                &&& row.position == count_in_list(old(self).rows(), old(self).selected_list())
            }),
    {
        let id = fresh_id();
        let created_at = now_millis();
        let r = self.push_with(title, description, id, created_at);
        proof {
            if r is Ok {
                assert(self.rows().drop_last() =~= old(self).rows());
            }
        }
        r
    }

    /// How many tasks the selected list holds, in any state.
    pub fn size(&self) -> (r: usize)
        requires
            self.wf(),
        ensures
            r == count_in_list(self.rows(), self.selected_list()),
    {
        let tasks = self.store.get_all_tasks(self.list_id);
        tasks.len()
    }

    /// The task of the selected list with this id, or `NotFound`.
    pub fn find_task(&self, id: u128) -> (r: Result<Task, TaskError>)
        requires
            self.wf(),
        ensures
            !has_task_in_list(self.rows(), self.selected_list(), id) ==> r == Err::<
                Task,
                TaskError,
            >(TaskError::NotFound),
            has_task_in_list(self.rows(), self.selected_list(), id) ==> r == Ok::<Task, TaskError>(
                self.rows()[task_index(self.rows(), self.selected_list(), id)].task,
            ),
    {
        let list_id = self.list_id;
        let tasks = self.store.get_all_tasks(list_id);
        proof {
            lemma_filter_permutation(self.rows(), RowFilter::All, list_id, tasks@);
        }
        let mut i: usize = 0;
        while i < tasks.len()
            invariant
                i <= tasks@.len(),
                self.wf(),
                list_id == self.selected_list(),
                forall|m: int| 0 <= m < tasks@.len() ==> row_pass(
                    RowFilter::All,
                    #[trigger] tasks@[m],
                    list_id,
                ) && self.rows().contains(tasks@[m]),
                forall|m: int|
                    0 <= m < self.rows().len() && row_pass(
                        RowFilter::All,
                        #[trigger] self.rows()[m],
                        list_id,
                    ) ==> tasks@.contains(self.rows()[m]),
                forall|m: int| 0 <= m < i ==> (#[trigger] tasks@[m]).task.id != id,
            decreases tasks@.len() - i,
        {
            if tasks[i].task.id == id {
                let t = tasks[i].task.clone();
                proof {
                    let k = choose|k: int|
                        0 <= k < self.rows().len() && self.rows()[k] == tasks@[i as int];
                    lemma_task_index(self.rows(), list_id, id, k);
                }
                return Ok(t);
            }
            i += 1;
        }
        proof {
            if has_task_in_list(self.rows(), list_id, id) {
                let k = choose|k: int|
                    0 <= k < self.rows().len() && in_list(#[trigger] self.rows()[k], list_id)
                        && self.rows()[k].task.id == id;
                assert(tasks@.contains(self.rows()[k]));
                let m = choose|m: int| 0 <= m < tasks@.len() && tasks@[m] == self.rows()[k];
                assert(tasks@[m].task.id == id);
            }
        }
        Err(TaskError::NotFound)
    }

    /// Where the task with this id stands in the historical view of the
    /// selected list, counting from the top; the list's size when it is
    /// not there.
    pub fn find_task_position(&self, task: &Task) -> (r: usize)
        requires
            self.wf(),
        ensures
            r <= count_in_list(self.rows(), self.selected_list()),
            has_task_in_list(self.rows(), self.selected_list(), task.id) ==> r < count_in_list(
                self.rows(),
                self.selected_list(),
            ),
            !has_task_in_list(self.rows(), self.selected_list(), task.id) ==> r == count_in_list(
                self.rows(),
                self.selected_list(),
            ),
    {
        let list_id = self.list_id;
        let tasks = self.store.get_all_tasks(list_id);
        proof {
            lemma_filter_permutation(self.rows(), RowFilter::All, list_id, tasks@);
        }
        let mut i: usize = 0;
        while i < tasks.len()
            invariant
                i <= tasks@.len(),
                self.wf(),
                list_id == self.selected_list(),
                tasks@.len() == count_in_list(self.rows(), self.selected_list()),
                forall|m: int| 0 <= m < tasks@.len() ==> row_pass(
                    RowFilter::All,
                    #[trigger] tasks@[m],
                    list_id,
                ) && self.rows().contains(tasks@[m]),
                forall|m: int|
                    0 <= m < self.rows().len() && row_pass(
                        RowFilter::All,
                        #[trigger] self.rows()[m],
                        list_id,
                    ) ==> tasks@.contains(self.rows()[m]),
                forall|m: int| 0 <= m < i ==> (#[trigger] tasks@[m]).task.id != task.id,
            decreases tasks@.len() - i,
        {
            if tasks[i].task.id == task.id {
                proof {
                    let k = choose|k: int|
                        0 <= k < self.rows().len() && self.rows()[k] == tasks@[i as int];
                    assert(in_list(self.rows()[k], list_id) && self.rows()[k].task.id
                        == task.id);
                }
                return i;
            }
            i += 1;
        }
        proof {
            if has_task_in_list(self.rows(), list_id, task.id) {
                let k = choose|k: int|
                    0 <= k < self.rows().len() && in_list(#[trigger] self.rows()[k], list_id)
                        && self.rows()[k].task.id == task.id;
                assert(tasks@.contains(self.rows()[k]));
                let m = choose|m: int| 0 <= m < tasks@.len() && tasks@[m] == self.rows()[k];
                assert(tasks@[m].task.id == task.id);
            }
        }
        tasks.len()
    }

    /// The first active task of the selected list: smallest position,
    /// ties to the earliest inserted row; `None` when no task is active.
    pub fn first_active(&self) -> (r: Option<Task>)
        requires
            self.wf(),
        ensures
            r is Some <==> has_active(self.rows(), self.selected_list()),
            r matches Some(t) ==> exists|i: int|
                is_first_active(self.rows(), self.selected_list(), i) && t == self.rows()[i].task,
    {
        self.store.get_first_active_task(self.list_id)
    }

    /// Removes and returns the task at the bottom of the selected list's
    /// historical view: a row above every other row of the list in that
    /// order. `None` on an empty list.
    pub fn pop(&mut self) -> (r: Option<Task>)
        requires
            old(self).wf(),
        ensures
            final(self).wf(),
            final(self).lists() == old(self).lists(),
            final(self).selected_list() == old(self).selected_list(),
            final(self).completion_policy() == old(self).completion_policy(),
            count_in_list(old(self).rows(), old(self).selected_list()) == 0 ==> r is None && final(self).rows() == old(self).rows(),
            count_in_list(old(self).rows(), old(self).selected_list()) > 0 ==> r is Some && popped(
                old(self).rows(),
                old(self).selected_list(),
                r->0,
                final(self).rows(),
            ),
    {
        let ghost rows = self.rows();
        let list_id = self.list_id;
        let tasks = self.store.get_all_tasks(list_id);
        if tasks.len() == 0 {
            return None;
        }
        let last = tasks.len() - 1;
        let t = tasks[last].task.clone();
        proof {
            lemma_filter_permutation(rows, RowFilter::All, list_id, tasks@);
            let i = choose|i: int| 0 <= i < rows.len() && rows[i] == tasks@[last as int];
            lemma_task_index(rows, list_id, t.id, i);
            assert forall|j: int|
                0 <= j < rows.len() && in_list(#[trigger] rows[j], list_id) implies hist_le(
                rows[j],
                rows[i],
            ) by {
                assert(tasks@.contains(rows[j]));
                let m = choose|m: int| 0 <= m < tasks@.len() && tasks@[m] == rows[j];
                if m < last {
                    assert(row_le(RowOrder::History, tasks@[m], tasks@[last as int]));
                }
            }
        }
        self.store.delete_task(t.id);
        proof {
            let ghost i = choose|i: int| 0 <= i < rows.len() && rows[i] == tasks@[last as int];
            let i2 = choose|i2: int|
                0 <= i2 < rows.len() && (#[trigger] rows[i2]).task.id == t.id && self.rows()
                    == rows.remove(i2);
            if i2 != i {
                if i2 < i {
                    assert(rows[i2].task.id != rows[i].task.id);
                } else {
                    assert(rows[i].task.id != rows[i2].task.id);
                }
            }
            assert(popped(rows, list_id, t, self.rows()));
        }
        Some(t)
    }

    /// The task at the top of the selected list's historical view: the
    /// most recent completion, or, with nothing completed, the first
    /// active task. `None` on an empty list.
    pub fn first(&self) -> (r: Option<Task>)
        requires
            self.wf(),
        ensures
            r is None <==> count_in_list(self.rows(), self.selected_list()) == 0,
            r matches Some(t) ==> first_in_history(self.rows(), self.selected_list(), t),
    {
        let ghost rows = self.rows();
        let list_id = self.list_id;
        let tasks = self.store.get_all_tasks(list_id);
        if tasks.len() == 0 {
            return None;
        }
        let t = tasks[0].task.clone();
        proof {
            lemma_filter_permutation(rows, RowFilter::All, list_id, tasks@);
            let i = choose|i: int| 0 <= i < rows.len() && rows[i] == tasks@[0];
            assert forall|j: int|
                0 <= j < rows.len() && in_list(#[trigger] rows[j], list_id) implies hist_le(
                rows[i],
                rows[j],
            ) by {
                assert(tasks@.contains(rows[j]));
                let m = choose|m: int| 0 <= m < tasks@.len() && tasks@[m] == rows[j];
                if 0 < m {
                    assert(row_le(RowOrder::History, tasks@[0], tasks@[m]));
                }
            }
            assert(first_in_history(rows, list_id, t));
        }
        Some(t)
    }

    /// Completes the task with this id at time `now`: `NotFound` when the
    /// selected list has no such task, `InvalidTransition` when it is
    /// already completed or, under the strict policy, not the first
    /// active task; otherwise the one row moves to `Completed` with `now`
    /// recorded, and the updated task is returned. A failure leaves the
    /// store unchanged.
    pub fn complete_task_at(&mut self, id: u128, now: i64) -> (r: Result<Task, TaskError>)
        requires
            old(self).wf(),
        ensures
            final(self).wf(),
            final(self).lists() == old(self).lists(),
            final(self).selected_list() == old(self).selected_list(),
            final(self).completion_policy() == old(self).completion_policy(),
            !has_task_in_list(old(self).rows(), old(self).selected_list(), id) ==> r == Err::<
                Task,
                TaskError,
            >(TaskError::NotFound) && final(self).rows() == old(self).rows(),
            has_task_in_list(old(self).rows(), old(self).selected_list(), id) ==> ({
                let i = task_index(old(self).rows(), old(self).selected_list(), id);
                if old(self).rows()[i].task.state is Completed {
                    r == Err::<Task, TaskError>(TaskError::InvalidTransition) && final(self).rows()
                        == old(self).rows()
                } else if old(self).completion_policy() is FirstOnly && !is_first_active(
                    old(self).rows(),
                    old(self).selected_list(),
                    i,
                ) {
                    r == Err::<Task, TaskError>(TaskError::InvalidTransition) && final(self).rows()
                        == old(self).rows()
                } else {
                    r == Ok::<Task, TaskError>(completed_row(old(self).rows()[i], now).task)
                        && final(self).rows() == old(self).rows().update(
                        i,
                        completed_row(old(self).rows()[i], now),
                    )
                }
            }),
    {
        let ghost rows = self.rows();
        let ghost list = self.selected_list();
        let t = match self.find_task(id) {
            Ok(t) => t,
            Err(e) => {
                return Err(e);
            },
        };
        let ghost ti = task_index(rows, list, id);
        if t.completed() {
            return Err(TaskError::InvalidTransition);
        }
        let allowed = match self.policy {
            CompletionPolicy::Any => true,
            CompletionPolicy::FirstOnly => {
                match self.store.get_first_active_task(self.list_id) {
                    Some(f) => {
                        proof {
                            let fi = choose|fi: int|
                                is_first_active(rows, list, fi) && f == rows[fi].task;
                            if f.id == id {
                                lemma_task_index(rows, list, id, fi);
                            } else if is_first_active(rows, list, ti) {
                                lemma_first_active_unique(rows, list, fi, ti);
                            }
                        }
                        f.id == id
                    },
                    None => {
                        proof {
                            assert(active_in_list(rows[ti], list));
                        }
                        false
                    },
                }
            },
        };
        if !allowed {
            return Err(TaskError::InvalidTransition);
        }
        self.store.update_task_state(id, TaskState::Completed, Some(now));
        proof {
            let i2 = choose|i2: int|
                0 <= i2 < rows.len() && (#[trigger] rows[i2]).task.id == id && self.rows()
                    == rows.update(
                    i2,
                    TaskRow {
                        task: Task {
                            state: TaskState::Completed,
                            completed_at: Some(now),
                            ..rows[i2].task
                        },
                        position: rows[i2].position,
                    },
                );
            if i2 != ti {
                if i2 < ti {
                    assert(rows[i2].task.id != rows[ti].task.id);
                } else {
                    assert(rows[ti].task.id != rows[i2].task.id);
                }
            }
            assert(self.rows() == rows.update(ti, completed_row(rows[ti], now)));
        }
        let mut updated = t;
        updated.state = TaskState::Completed;
        updated.completed_at = Some(now);
        Ok(updated)
    }

    /// [`Self::complete_task_at`] with the current wall-clock time: the
    /// recorded completion time is whatever the clock read during the
    /// call.
    pub fn complete_task(&mut self, id: u128) -> (r: Result<Task, TaskError>)
        requires
            old(self).wf(),
        ensures
            final(self).wf(),
            final(self).lists() == old(self).lists(),
            final(self).selected_list() == old(self).selected_list(),
            final(self).completion_policy() == old(self).completion_policy(),
            !has_task_in_list(old(self).rows(), old(self).selected_list(), id) ==> r == Err::<
                Task,
                TaskError,
            >(TaskError::NotFound) && final(self).rows() == old(self).rows(),
            r is Err ==> final(self).rows() == old(self).rows(),
            has_task_in_list(old(self).rows(), old(self).selected_list(), id) ==> ({
                let i = task_index(old(self).rows(), old(self).selected_list(), id);
                if old(self).rows()[i].task.state is Completed {
                    r == Err::<Task, TaskError>(TaskError::InvalidTransition)
                } else if old(self).completion_policy() is FirstOnly && !is_first_active(
                    old(self).rows(),
                    old(self).selected_list(),
                    i,
                ) {
                    r == Err::<Task, TaskError>(TaskError::InvalidTransition)
                } else {
                    &&& r is Ok
                    &&& final(self).rows().len() == old(self).rows().len()
                    &&& final(self).rows()[i].task.state is Completed
                    &&& final(self).rows()[i].task.completed_at is Some
                    &&& final(self).rows()[i].task.id == old(self).rows()[i].task.id
                    &&& final(self).rows()[i].task.title == old(self).rows()[i].task.title
                    &&& final(self).rows()[i].task.description == old(self).rows()[i].task.description
                    &&& final(self).rows()[i].task.created_at == old(self).rows()[i].task.created_at
                    &&& final(self).rows()[i].position == old(self).rows()[i].position
                    &&& forall|j: int|
                        0 <= j < old(self).rows().len() && j != i ==> final(self).rows()[j] == old(self).rows()[j]
                    &&& r->Ok_0 == final(self).rows()[i].task
                }
            }),
    {
        let now = now_millis();
        let r = self.complete_task_at(id, now);
        proof {
            let rows = old(self).rows();
            let list = old(self).selected_list();
            if has_task_in_list(rows, list, id) {
                let i = task_index(rows, list, id);
                if !(rows[i].task.state is Completed) && !(old(self).completion_policy()
                    is FirstOnly && !is_first_active(rows, list, i)) {
                    assert(self.rows() == rows.update(i, completed_row(rows[i], now)));
                }
            }
        }
        r
    }

    /// Moves the task with this id to the end of the selected list's
    /// active order: its new position is one more than the list's highest,
    /// so it lands strictly after every other task. `NotFound`, without
    /// effect, when the list has no such task.
    pub fn move_to_end(&mut self, id: u128) -> (r: Result<(), TaskError>)
        requires
            old(self).wf(),
            highest_position(old(self).rows(), old(self).selected_list()) < i64::MAX,
        ensures
            final(self).wf(),
            final(self).lists() == old(self).lists(),
            final(self).selected_list() == old(self).selected_list(),
            final(self).completion_policy() == old(self).completion_policy(),
            !has_task_in_list(old(self).rows(), old(self).selected_list(), id) ==> r == Err::<
                (),
                TaskError,
            >(TaskError::NotFound) && final(self).rows() == old(self).rows(),
            has_task_in_list(old(self).rows(), old(self).selected_list(), id) ==> r == Ok::<
                (),
                TaskError,
            >(()) && final(self).rows() == old(self).rows().update(
                task_index(old(self).rows(), old(self).selected_list(), id),
                (TaskRow {
                    task: old(self).rows()[task_index(
                        old(self).rows(),
                        old(self).selected_list(),
                        id,
                    )].task,
                    position: (highest_position(old(self).rows(), old(self).selected_list())
                        + 1) as i64,
                }),
            ),
    {
        let ghost rows = self.rows();
        let ghost list = self.selected_list();
        match self.find_task(id) {
            Ok(_) => {
            },
            Err(e) => {
                return Err(e);
            },
        }
        let ghost ti = task_index(rows, list, id);
        let highest = self.store.get_highest_position(self.list_id);
        let new_position = highest + 1;
        self.store.update_task_position(id, new_position);
        proof {
            let i2 = choose|i2: int|
                0 <= i2 < rows.len() && (#[trigger] rows[i2]).task.id == id && self.rows()
                    == rows.update(i2, TaskRow { task: rows[i2].task, position: new_position });
            if i2 != ti {
                if i2 < ti {
                    assert(rows[i2].task.id != rows[ti].task.id);
                } else {
                    assert(rows[ti].task.id != rows[i2].task.id);
                }
            }
        }
        Ok(())
    }

    /// The highest ordering position of the selected list, or 0 when the
    /// list holds no task: the base the next `move_to_end` builds on.
    pub fn highest_position(&self) -> (r: i64)
        ensures
            r as int == highest_position(self.rows(), self.selected_list()),
    {
        self.store.get_highest_position(self.list_id)
    }

    /// Every task of the selected list, in the historical order:
    /// completed tasks first, most recently completed on top, then active
    /// tasks in position order.
    pub fn get_tasks(&self) -> (r: Vec<Task>)
        requires
            self.wf(),
        ensures
            exists|rs: Seq<TaskRow>|
                projection(
                    self.rows(),
                    RowFilter::All,
                    RowOrder::History,
                    self.selected_list(),
                    rs,
                    r@,
                ),
    {
        let rows = self.store.get_all_tasks(self.list_id);
        let out = project_tasks(&rows);
        proof {
            assert(projection(
                self.rows(),
                RowFilter::All,
                RowOrder::History,
                self.selected_list(),
                rows@,
                out@,
            ));
        }
        out
    }

    /// The "current" view of the selected list at time `now`: every
    /// active task, plus tasks completed within the trailing window, in
    /// position order.
    pub fn get_current_tasks_at(&self, now: i64) -> (r: Vec<Task>)
        requires
            self.wf(),
        ensures
            exists|rs: Seq<TaskRow>|
                projection(
                    self.rows(),
                    RowFilter::Current(now),
                    RowOrder::ByPosition,
                    self.selected_list(),
                    rs,
                    r@,
                ),
    {
        let rows = self.store.get_current_tasks(self.list_id, now);
        let out = project_tasks(&rows);
        proof {
            assert(projection(
                self.rows(),
                RowFilter::Current(now),
                RowOrder::ByPosition,
                self.selected_list(),
                rows@,
                out@,
            ));
        }
        out
    }

    /// [`Self::get_current_tasks_at`] with the current wall-clock time.
    /// Re-querying later can silently drop a task whose window has
    /// elapsed: the view is a function of the clock at query time.
    pub fn get_current_tasks(&self) -> (r: Vec<Task>)
        requires
            self.wf(),
        ensures
            exists|now: i64, rs: Seq<TaskRow>|
                projection(
                    self.rows(),
                    RowFilter::Current(now),
                    RowOrder::ByPosition,
                    self.selected_list(),
                    rs,
                    r@,
                ),
    {
        let now = now_millis();
        let r = self.get_current_tasks_at(now);
        proof {
            let rs = choose|rs: Seq<TaskRow>|
                projection(
                    self.rows(),
                    RowFilter::Current(now),
                    RowOrder::ByPosition,
                    self.selected_list(),
                    rs,
                    r@,
                );
            assert(projection(
                self.rows(),
                RowFilter::Current(now),
                RowOrder::ByPosition,
                self.selected_list(),
                rs,
                r@,
            ));
        }
        r
    }

    /// Every list, newest first.
    pub fn get_lists(&self) -> (r: Vec<TaskList>)
        ensures
            r@.to_multiset() == self.lists().to_multiset(),
            sorted_lists(r@),
            r@.len() == self.lists().len(),
    {
        sort_lists(self.store.all_lists())
    }

    /// Creates a list under a freshly generated id with the current time
    /// and returns the id. The selected list is not switched: the caller
    /// decides. Fails exactly on a blank name, or without effect on the
    /// practically impossible id collision.
    pub fn create_new_list(&mut self, name: &str) -> (r: Result<u128, TaskError>)
        requires
            old(self).wf(),
        ensures
            final(self).wf(),
            final(self).rows() == old(self).rows(),
            final(self).selected_list() == old(self).selected_list(),
            final(self).completion_policy() == old(self).completion_policy(),
            blank(name@) <==> r == Err::<u128, TaskError>(TaskError::Validation),
            r is Err ==> final(self).lists() == old(self).lists(),
            r is Ok ==> {
                &&& !has_list_id(old(self).lists(), r->Ok_0)
                &&& final(self).lists().len() == old(self).lists().len() + 1
                &&& final(self).lists().drop_last() == old(self).lists()
                &&& final(self).lists().last().id == r->Ok_0
                &&& final(self).lists().last().name@ == name@
            },
    {
        self.store.create_list(name.to_owned())
    }
}

/// The task of each row, in the rows' order.
fn project_tasks(rows: &Vec<TaskRow>) -> (r: Vec<Task>)
    ensures
        r@.len() == rows@.len(),
        forall|k: int| 0 <= k < rows@.len() ==> r@[k] == (#[trigger] rows@[k]).task,
{
    let mut out: Vec<Task> = Vec::new();
    let mut i: usize = 0;
    while i < rows.len()
        invariant
            i <= rows@.len(),
            out@.len() == i,
            forall|k: int| 0 <= k < i ==> out@[k] == (#[trigger] rows@[k]).task,
        decreases rows@.len() - i,
    {
        out.push(rows[i].task.clone());
        i += 1;
    }
    out
}

} // verus!
