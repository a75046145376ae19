use vstd::prelude::*;
use crate::date::{Date, lemma_text_len};
use crate::query::{ConfView, DisplayMode};
use crate::select::{Selection, all_wf, selected, shown_row, views};
use crate::state::{State, state_marker};
use crate::task::{Task, TaskView, date_group, line_of};

verus! {

/// A change of state applied to each selected task.
#[derive(Clone, Copy, Debug, PartialEq, Eq, Structural)]
pub enum Mark {
    /// Completed on the given day.
    Complete(Date),
    /// Marked removed; the record stays.
    Remove,
}

/// A task completed on `day`.
pub open spec fn completed(t: TaskView, day: Date) -> TaskView {
    TaskView { state: State::Completed, completed_at: Some(day), ..t }
}

/// A task marked removed.
pub open spec fn removed(t: TaskView) -> TaskView {
    TaskView { state: State::Removed, ..t }
}

/// A task after a mark.
pub open spec fn marked(t: TaskView, m: Mark) -> TaskView {
    match m {
        Mark::Complete(d) => completed(t, d),
        Mark::Remove => removed(t),
    }
}

/// Whether one of the first `n` ids stands for record `j`.
pub open spec fn chosen(rows: Seq<usize>, ids: Seq<usize>, j: int, n: int) -> bool {
    exists|i: int| 0 <= i < n && shown_row(rows, #[trigger] ids[i]) == Some(j as usize)
}

/// The first `n` ids that stand for no record, in input order.
pub open spec fn unresolved(rows: Seq<usize>, ids: Seq<usize>, n: int) -> Seq<usize>
    decreases n,
{
    if n <= 0 {
        seq![]
    } else if shown_row(rows, ids[n - 1]) is None {
        unresolved(rows, ids, n - 1).push(ids[n - 1])
    } else {
        unresolved(rows, ids, n - 1)
    }
}

/// The first `n` records that no id stands for, in order.
pub open spec fn kept(ts: Seq<TaskView>, rows: Seq<usize>, ids: Seq<usize>, n: int) -> Seq<
    TaskView,
>
    decreases n,
{
    if n <= 0 {
        seq![]
    } else if chosen(rows, ids, n - 1, ids.len() as int) {
        kept(ts, rows, ids, n - 1)
    } else {
        kept(ts, rows, ids, n - 1).push(ts[n - 1])
    }
}

/// Applies `mark` to the task behind each id that stands for one; the ids
/// that stand for none are returned, and the rest of the batch still
/// applies.
pub fn mark_tasks(tasks: &mut Vec<Task>, sel: &Selection, ids: &Vec<usize>, mark: Mark) -> (r: Vec<
    usize,
>)
    requires
        all_wf(old(tasks)@),
        sel.within(old(tasks)@.len() as int),
        mark matches Mark::Complete(d) ==> d.wf(),
    ensures
        final(tasks)@.len() == old(tasks)@.len(),
        all_wf(final(tasks)@),
        forall|j: int|
            0 <= j < old(tasks)@.len() ==> views(final(tasks)@)[j] == if chosen(
                sel.rows@,
                ids@,
                j,
                ids@.len() as int,
            ) {
                marked(views(old(tasks)@)[j], mark)
            } else {
                views(old(tasks)@)[j]
            },
        r@ == unresolved(sel.rows@, ids@, ids@.len() as int),
{
    let ghost orig = views(tasks@);
    let n = tasks.len();
    let mut invalid: Vec<usize> = Vec::new();
    let mut i: usize = 0;
    while i < ids.len()
        invariant
            i <= ids@.len(),
            tasks@.len() == orig.len(),
            n == orig.len(),
            all_wf(tasks@),
            sel.within(orig.len() as int),
            mark matches Mark::Complete(d) ==> d.wf(),
            orig == views(old(tasks)@),
            forall|j: int|
                0 <= j < orig.len() ==> views(tasks@)[j] == if chosen(sel.rows@, ids@, j, i as int) {
                    marked(orig[j], mark)
                } else {
                    orig[j]
                },
            invalid@ == unresolved(sel.rows@, ids@, i as int),
        decreases ids@.len() - i,
    {
        let id = ids[i];
        match sel.get(id) {
            Some(row) => {
                assert(sel.rows@.contains(row)) by {
                    assert(sel.rows@[id - 1] == row);
                }
                assert(shown_row(sel.rows@, ids@[i as int]) == Some(row));
                let ghost before = views(tasks@);
                match mark {
                    Mark::Complete(d) => {
                        tasks[row].state = State::Completed;
                        tasks[row].completed_at = Some(d);
                    },
                    Mark::Remove => {
                        tasks[row].state = State::Removed;
                    },
                }
                assert(views(tasks@)[row as int] == marked(before[row as int], mark));
                assert(forall|j: int|
                    0 <= j < orig.len() && j != row ==> views(tasks@)[j] == before[j]);
                assert forall|j: int| 0 <= j < orig.len() implies views(tasks@)[j] == if chosen(
                    sel.rows@,
                    ids@,
                    j,
                    i + 1,
                ) {
                    marked(orig[j], mark)
                } else {
                    orig[j]
                } by {
                    if j == row {
                        assert(shown_row(sel.rows@, ids@[i as int]) == Some(j as usize));
                        assert(chosen(sel.rows@, ids@, j, i + 1));
                        assert(views(tasks@)[j] == marked(before[j], mark));
                    } else {
                        if chosen(sel.rows@, ids@, j, i + 1) {
                            let k = choose|k: int|
                                0 <= k < i + 1 && shown_row(sel.rows@, #[trigger] ids@[k]) == Some(
                                    j as usize,
                                );
                            assert(k < i);
                        }
                    }
                }
            },
            None => {
                invalid.push(id);
                assert(shown_row(sel.rows@, ids@[i as int]) is None);
                assert forall|j: int| 0 <= j < orig.len() implies chosen(sel.rows@, ids@, j, i + 1)
                    == chosen(sel.rows@, ids@, j, i as int) by {
                    if chosen(sel.rows@, ids@, j, i + 1) {
                        let k = choose|k: int|
                            0 <= k < i + 1 && shown_row(sel.rows@, #[trigger] ids@[k]) == Some(
                                j as usize,
                            );
                        assert(k < i);
                    }
                }
            },
        }
        i = i + 1;
    }
    invalid
}

/// Completes the task behind each id on `today`; returns the ids that
/// stand for no task.
pub fn complete_tasks(tasks: &mut Vec<Task>, sel: &Selection, ids: &Vec<usize>, today: Date) -> (r:
    Vec<usize>)
    requires
        all_wf(old(tasks)@),
        sel.within(old(tasks)@.len() as int),
        today.wf(),
    ensures
        final(tasks)@.len() == old(tasks)@.len(),
        all_wf(final(tasks)@),
        forall|j: int|
            0 <= j < old(tasks)@.len() ==> views(final(tasks)@)[j] == if chosen(
                sel.rows@,
                ids@,
                j,
                ids@.len() as int,
            ) {
                completed(views(old(tasks)@)[j], today)
            } else {
                views(old(tasks)@)[j]
            },
        r@ == unresolved(sel.rows@, ids@, ids@.len() as int),
{
    mark_tasks(tasks, sel, ids, Mark::Complete(today))
}

/// Marks the task behind each id removed; returns the ids that stand for
/// no task.
pub fn remove_tasks(tasks: &mut Vec<Task>, sel: &Selection, ids: &Vec<usize>) -> (r: Vec<usize>)
    requires
        all_wf(old(tasks)@),
        sel.within(old(tasks)@.len() as int),
    ensures
        final(tasks)@.len() == old(tasks)@.len(),
        all_wf(final(tasks)@),
        forall|j: int|
            0 <= j < old(tasks)@.len() ==> views(final(tasks)@)[j] == if chosen(
                sel.rows@,
                ids@,
                j,
                ids@.len() as int,
            ) {
                removed(views(old(tasks)@)[j])
            } else {
                views(old(tasks)@)[j]
            },
        r@ == unresolved(sel.rows@, ids@, ids@.len() as int),
{
    mark_tasks(tasks, sel, ids, Mark::Remove)
}

/// Erases the record behind each id; the others keep their order. Returns
/// the ids that stand for no record.
pub fn delete_tasks(tasks: &mut Vec<Task>, sel: &Selection, ids: &Vec<usize>) -> (r: Vec<usize>)
    requires
        all_wf(old(tasks)@),
        sel.within(old(tasks)@.len() as int),
    ensures
        all_wf(final(tasks)@),
        views(final(tasks)@) == kept(views(old(tasks)@), sel.rows@, ids@, old(tasks)@.len() as int),
        r@ == unresolved(sel.rows@, ids@, ids@.len() as int),
{
    let ghost orig = old(tasks)@;
    let n = tasks.len();
    let mut marks: Vec<bool> = Vec::new();
    while marks.len() < n
        invariant
            marks@.len() <= n,
            forall|j: int| 0 <= j < marks@.len() ==> !marks@[j],
        decreases n - marks@.len(),
    {
        marks.push(false);
    }
    let mut invalid: Vec<usize> = Vec::new();
    let mut i: usize = 0;
    while i < ids.len()
        invariant
            i <= ids@.len(),
            marks@.len() == n,
            n == orig.len(),
            sel.within(n as int),
            forall|j: int| 0 <= j < n ==> marks@[j] == chosen(sel.rows@, ids@, j, i as int),
            invalid@ == unresolved(sel.rows@, ids@, i as int),
        decreases ids@.len() - i,
    {
        let id = ids[i];
        match sel.get(id) {
            Some(row) => {
                assert(sel.rows@[id - 1] == row);
                marks.set(row, true);
            },
            None => {
                invalid.push(id);
            },
        }
        assert forall|j: int| 0 <= j < n implies marks@[j] == chosen(sel.rows@, ids@, j, i + 1) by {
            if chosen(sel.rows@, ids@, j, i + 1) && !(shown_row(sel.rows@, ids@[i as int]) == Some(
                j as usize,
            )) {
                let k = choose|k: int|
                    0 <= k < i + 1 && shown_row(sel.rows@, #[trigger] ids@[k]) == Some(j as usize);
                assert(k < i);
            }
            if shown_row(sel.rows@, ids@[i as int]) == Some(j as usize) {
                assert(chosen(sel.rows@, ids@, j, i + 1));
            }
        }
        i = i + 1;
    }
    let mut rest: Vec<Task> = Vec::new();
    std::mem::swap(tasks, &mut rest);
    let mut j: usize = 0;
    while j < n
        invariant
            j <= n,
            n == orig.len(),
            marks@.len() == n,
            all_wf(orig),
            rest@ == orig.subrange(j as int, n as int),
            forall|k: int| 0 <= k < n ==> marks@[k] == chosen(sel.rows@, ids@, k, ids@.len() as int),
            all_wf(tasks@),
            views(tasks@) == kept(views(orig), sel.rows@, ids@, j as int),
        decreases n - j,
    {
        let t = rest.remove(0);
        assert(t == orig[j as int]);
        if !marks[j] {
            tasks.push(t);
            assert(views(tasks@) =~= kept(views(orig), sel.rows@, ids@, j as int).push(t@));
        }
        assert(rest@ =~= orig.subrange(j + 1, n as int));
        j = j + 1;
    }
    invalid
}

/// After completion a task's line opens with the completed marker and ends
/// with the completion date group; a removed task's line opens with the
/// removed marker, and a pending-only listing leaves the task out.
pub proof fn lemma_completion_marks(t: TaskView, day: Date, c: ConfView)
    ensures
        line_of(completed(t, day)).subrange(0, 2) == seq!['✓', ' '],
        line_of(completed(t, day)).subrange(
            line_of(completed(t, day)).len() - 13,
            line_of(completed(t, day)).len() as int,
        ) == date_group(Some(day)),
        day.text().len() == 10,
        line_of(removed(t)).subrange(0, 2) == seq!['✗', ' '],
        !selected(removed(t), DisplayMode { pending: true, completed: false, removed: false }, c),
{
    let l = line_of(completed(t, day));
    lemma_text_len(day);
    assert(state_marker(State::Completed) == seq!['✓', ' ']);
    assert(l.subrange(0, 2) =~= seq!['✓', ' ']);
    assert(l.subrange(l.len() - 13, l.len() as int) =~= date_group(Some(day)));
    let m = line_of(removed(t));
    assert(m.subrange(0, 2) =~= seq!['✗', ' ']);
}

} // verus!
