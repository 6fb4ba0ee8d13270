//! The orderings the store's queries present rows in, and verified
//! insertion sorts that realise them.
//!
//! The historical view puts completed tasks first, most recently completed
//! on top, and active tasks after them in manual position order. The
//! working views order by position alone. Lists are presented newest
//! first. None of the orders is strict: ties are left to the sort, which
//! promises only a sorted permutation.

use vstd::prelude::*;
use vstd::seq_lib::group_to_multiset_ensures;

use crate::store::TaskRow;
use crate::tasks::{TaskList, TaskState};

verus! {

/// The historical order: completed rows before active rows; completed
/// rows by completion time descending; active rows by position ascending.
pub open spec fn hist_le(a: TaskRow, b: TaskRow) -> bool {
    match (a.task.state, b.task.state) {
        (TaskState::Completed, TaskState::Completed) => a.task.completed_at->0
            >= b.task.completed_at->0,
        (TaskState::Completed, TaskState::Active) => true,
        (TaskState::Active, TaskState::Completed) => false,
        (TaskState::Active, TaskState::Active) => a.position <= b.position,
    }
}

/// The working order: by position ascending, whatever the state.
pub open spec fn pos_le(a: TaskRow, b: TaskRow) -> bool {
    a.position <= b.position
}

/// Lists newest first: by creation time descending.
pub open spec fn list_le(a: TaskList, b: TaskList) -> bool {
    a.created_at >= b.created_at
}

/// Which of the two row orders a query asks for.
#[derive(Clone, Copy, Debug)]
pub enum RowOrder {
    History,
    ByPosition,
}

pub open spec fn row_le(o: RowOrder, a: TaskRow, b: TaskRow) -> bool {
    match o {
        RowOrder::History => hist_le(a, b),
        RowOrder::ByPosition => pos_le(a, b),
    }
}

/// The rows stand in the requested order.
pub open spec fn sorted_rows(o: RowOrder, s: Seq<TaskRow>) -> bool {
    forall|p: int, q: int| 0 <= p < q < s.len() ==> #[trigger] row_le(o, s[p], s[q])
}

/// The lists stand newest first.
pub open spec fn sorted_lists(s: Seq<TaskList>) -> bool {
    forall|p: int, q: int| 0 <= p < q < s.len() ==> #[trigger] list_le(s[p], s[q])
}

/// Both row orders are total: any two rows compare one way or the other.
pub proof fn lemma_row_le_total(o: RowOrder, a: TaskRow, b: TaskRow)
    ensures
        row_le(o, a, b) || row_le(o, b, a),
{
}

/// Both row orders are transitive.
pub proof fn lemma_row_le_trans(o: RowOrder, a: TaskRow, b: TaskRow, c: TaskRow)
    requires
        row_le(o, a, b),
        row_le(o, b, c),
    ensures
        row_le(o, a, c),
{
}

/// Inserting `x` at the boundary the inner search found keeps the rows
/// sorted, and adds exactly `x` to their multiset.
proof fn lemma_insert_row_sorted(o: RowOrder, s: Seq<TaskRow>, x: TaskRow, j: int)
    requires
        sorted_rows(o, s),
        0 <= j <= s.len(),
        forall|k: int| 0 <= k < j ==> row_le(o, #[trigger] s[k], x),
        j < s.len() ==> !row_le(o, s[j], x),
    ensures
        sorted_rows(o, s.insert(j, x)),
        s.insert(j, x).to_multiset() == s.to_multiset().insert(x),
        s.insert(j, x).len() == s.len() + 1,
{
    broadcast use group_to_multiset_ensures;

    let t = s.insert(j, x);
    s.insert_ensures(j, x);
    if j < s.len() {
        lemma_row_le_total(o, s[j], x);
    }
    assert forall|p: int, q: int| 0 <= p < q < t.len() implies #[trigger] row_le(o, t[p], t[q]) by {
        if q < j {
            assert(t[p] == s[p] && t[q] == s[q]);
            assert(row_le(o, s[p], s[q]));
        } else if p < j && q == j {
            assert(t[p] == s[p] && t[q] == x);
        } else if p < j && q > j {
            assert(t[p] == s[p] && t[q] == s[q - 1]);
            assert(row_le(o, s[p], s[q - 1]));
        } else if p == j {
            assert(t[p] == x && t[q] == s[q - 1]);
            assert(row_le(o, x, s[j]));
            if q - 1 > j {
                assert(row_le(o, s[j], s[q - 1]));
            }
            lemma_row_le_trans(o, x, s[j], s[q - 1]);
        } else {
            assert(t[p] == s[p - 1] && t[q] == s[q - 1]);
            assert(row_le(o, s[p - 1], s[q - 1]));
        }
    }
}

/// The same boundary argument for the list order, which is total and
/// transitive outright.
proof fn lemma_insert_list_sorted(s: Seq<TaskList>, x: TaskList, j: int)
    requires
        sorted_lists(s),
        0 <= j <= s.len(),
        forall|k: int| 0 <= k < j ==> list_le(#[trigger] s[k], x),
        j < s.len() ==> !list_le(s[j], x),
    ensures
        sorted_lists(s.insert(j, x)),
        s.insert(j, x).to_multiset() == s.to_multiset().insert(x),
        s.insert(j, x).len() == s.len() + 1,
{
    broadcast use group_to_multiset_ensures;

    let t = s.insert(j, x);
    s.insert_ensures(j, x);
    assert forall|p: int, q: int| 0 <= p < q < t.len() implies #[trigger] list_le(t[p], t[q]) by {
        if q < j {
            assert(t[p] == s[p] && t[q] == s[q]);
            assert(list_le(s[p], s[q]));
        } else if p < j && q == j {
            assert(t[p] == s[p] && t[q] == x);
        } else if p < j && q > j {
            assert(t[p] == s[p] && t[q] == s[q - 1]);
            assert(list_le(s[p], s[q - 1]));
        } else if p == j {
            assert(t[p] == x && t[q] == s[q - 1]);
            assert(list_le(x, s[j]));
            if q - 1 > j {
                assert(list_le(s[j], s[q - 1]));
            }
        } else {
            assert(t[p] == s[p - 1] && t[q] == s[q - 1]);
            assert(list_le(s[p - 1], s[q - 1]));
        }
    }
}

/// Taking one more element of a prefix adds exactly that element to the
/// prefix's multiset.
proof fn lemma_take_step<A>(v: Seq<A>, i: int)
    requires
        0 <= i < v.len(),
    ensures
        v.take(i + 1).to_multiset() == v.take(i).to_multiset().insert(v[i]),
{
    broadcast use group_to_multiset_ensures;

    assert(v.take(i + 1) =~= v.take(i).push(v[i]));
}

/// Decides [`row_le`]. The completion timestamps are only read on
/// completed rows, which the state-machine invariant guarantees carry one.
fn row_le_exec(o: RowOrder, a: &TaskRow, b: &TaskRow) -> (r: bool)
    requires
        a.task.inv(),
        b.task.inv(),
    ensures
        r == row_le(o, *a, *b),
{
    match o {
        RowOrder::History => match (a.task.state, b.task.state) {
            (TaskState::Completed, TaskState::Completed) => match (
                a.task.completed_at,
                b.task.completed_at,
            ) {
                (Some(x), Some(y)) => x >= y,
                _ => false,
            },
            (TaskState::Completed, TaskState::Active) => true,
            (TaskState::Active, TaskState::Completed) => false,
            (TaskState::Active, TaskState::Active) => a.position <= b.position,
        },
        RowOrder::ByPosition => a.position <= b.position,
    }
}

/// Sorts the rows into the requested order: the result is a sorted
/// permutation of the input.
pub fn sort_rows(o: RowOrder, v: Vec<TaskRow>) -> (r: Vec<TaskRow>)
    requires
        forall|i: int| 0 <= i < v@.len() ==> (#[trigger] v@[i]).task.inv(),
    ensures
        sorted_rows(o, r@),
        r@.to_multiset() == v@.to_multiset(),
        r@.len() == v@.len(),
{
    let mut out: Vec<TaskRow> = Vec::new();
    let mut idx: usize = 0;
    proof {
        broadcast use group_to_multiset_ensures;

        assert(out@.to_multiset() =~= v@.take(0).to_multiset());
    }
    while idx < v.len()
        invariant
            idx <= v@.len(),
            forall|i: int| 0 <= i < v@.len() ==> (#[trigger] v@[i]).task.inv(),
            forall|i: int| 0 <= i < out@.len() ==> (#[trigger] out@[i]).task.inv(),
            sorted_rows(o, out@),
            out@.to_multiset() == v@.take(idx as int).to_multiset(),
            out@.len() == idx,
        decreases v@.len() - idx,
    {
        let x = v[idx].clone();
        let mut j: usize = 0;
        while j < out.len() && row_le_exec(o, &out[j], &x)
            invariant
                j <= out@.len(),
                x.task.inv(),
                forall|i: int| 0 <= i < out@.len() ==> (#[trigger] out@[i]).task.inv(),
                forall|k: int| 0 <= k < j ==> row_le(o, #[trigger] out@[k], x),
            decreases out@.len() - j,
        {
            j += 1;
        }
        proof {
            lemma_insert_row_sorted(o, out@, x, j as int);
            lemma_take_step(v@, idx as int);
        }
        out.insert(j, x);
        idx += 1;
    }
    proof {
        assert(v@.take(v@.len() as int) =~= v@);
    }
    out
}

/// Decides [`list_le`].
fn list_le_exec(a: &TaskList, b: &TaskList) -> (r: bool)
    ensures
        r == list_le(*a, *b),
{
    a.created_at >= b.created_at
}

/// Sorts lists newest first: the result is a sorted permutation of the
/// input.
pub fn sort_lists(v: Vec<TaskList>) -> (r: Vec<TaskList>)
    ensures
        sorted_lists(r@),
        r@.to_multiset() == v@.to_multiset(),
        r@.len() == v@.len(),
{
    let mut out: Vec<TaskList> = Vec::new();
    let mut idx: usize = 0;
    proof {
        broadcast use group_to_multiset_ensures;

        assert(out@.to_multiset() =~= v@.take(0).to_multiset());
    }
    while idx < v.len()
        invariant
            idx <= v@.len(),
            sorted_lists(out@),
            out@.to_multiset() == v@.take(idx as int).to_multiset(),
            out@.len() == idx,
        decreases v@.len() - idx,
    {
        let x = v[idx].clone();
        let mut j: usize = 0;
        while j < out.len() && list_le_exec(&out[j], &x)
            invariant
                j <= out@.len(),
                forall|k: int| 0 <= k < j ==> list_le(#[trigger] out@[k], x),
            decreases out@.len() - j,
        {
            j += 1;
        }
        proof {
            lemma_insert_list_sorted(out@, x, j as int);
            lemma_take_step(v@, idx as int);
        }
        out.insert(j, x);
        idx += 1;
    }
    proof {
        assert(v@.take(v@.len() as int) =~= v@);
    }
    out
}

} // verus!
