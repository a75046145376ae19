use vstd::prelude::*;
use crate::priority::rank;
use crate::query::{ConfView, DisplayMode, SortKey, TaskConf, conf_matches, mode_shows};
use crate::task::{Task, TaskView, opt_wf};

verus! {

/// The views of a sequence of tasks.
pub open spec fn views(ts: Seq<Task>) -> Seq<TaskView> {
    ts.map_values(|t: Task| t@)
}

/// Every task of the sequence is well formed.
pub open spec fn all_wf(ts: Seq<Task>) -> bool {
    forall|i: int| 0 <= i < ts.len() ==> (#[trigger] ts[i]).wf()
}

/// The value a task is sorted by, larger first: its priority's weight, or
/// its due date (a task without one last).
pub open spec fn sort_key(t: TaskView, k: SortKey) -> int {
    match k {
        SortKey::Unsorted => 0,
        SortKey::Priority => rank(t.priority),
        SortKey::Due => match t.due_to {
            Some(d) => d.ordinal() + 1,
            None => 0,
        },
    }
}

/// Whether a task is shown by mode `m` and query `c`.
pub open spec fn selected(t: TaskView, m: DisplayMode, c: ConfView) -> bool {
    mode_shows(m, t.state) && conf_matches(t, c)
}

/// Places `x` in `s` before the first element of smaller key.
pub open spec fn insert_by(s: Seq<usize>, x: usize, key: spec_fn(usize) -> int) -> Seq<usize>
    decreases s.len(),
{
    if s.len() == 0 {
        seq![x]
    } else if key(x) > key(s[0]) {
        seq![x] + s
    } else {
        seq![s[0]] + insert_by(s.drop_first(), x, key)
    }
}

/// The key of each record position under sort key `k`.
pub open spec fn key_fn(ts: Seq<TaskView>, k: SortKey) -> spec_fn(usize) -> int {
    |j: usize| sort_key(ts[j as int], k)
}

/// The shown positions among the first `n` records, in listing order.
pub open spec fn listed_upto(ts: Seq<TaskView>, m: DisplayMode, c: ConfView, n: int) -> Seq<usize>
    decreases n,
{
    if n <= 0 {
        seq![]
    } else if selected(ts[n - 1], m, c) {
        insert_by(listed_upto(ts, m, c, n - 1), (n - 1) as usize, key_fn(ts, c.sort_by))
    } else {
        listed_upto(ts, m, c, n - 1)
    }
}

/// The record positions that a listing shows, in order: the tasks that mode
/// and query let through, larger key first, ties in file order.
pub open spec fn listed(ts: Seq<TaskView>, m: DisplayMode, c: ConfView) -> Seq<usize> {
    listed_upto(ts, m, c, ts.len() as int)
}

/// Ordered by key, larger first, and by position where keys tie.
pub open spec fn sorted_stable(s: Seq<usize>, key: spec_fn(usize) -> int) -> bool {
    forall|a: int, b: int|
        0 <= a < b < s.len() ==> key(#[trigger] s[a]) > key(#[trigger] s[b]) || (key(s[a])
            == key(s[b]) && s[a] < s[b])
}

proof fn lemma_insert_by(s: Seq<usize>, x: usize, key: spec_fn(usize) -> int)
    requires
        sorted_stable(s, key),
        forall|j: int| 0 <= j < s.len() ==> s[j] < x,
    ensures
        sorted_stable(insert_by(s, x, key), key),
        insert_by(s, x, key).len() == s.len() + 1,
        forall|y: usize| #[trigger] insert_by(s, x, key).contains(y) <==> (y == x || s.contains(y)),
    decreases s.len(),
{
    let r = insert_by(s, x, key);
    if s.len() == 0 {
        assert(r =~= seq![x]);
        assert forall|y: usize| r.contains(y) <==> (y == x || s.contains(y)) by {
            if y == x {
                assert(r[0] == x);
            }
        }
    } else if key(x) > key(s[0]) {
        assert forall|a: int, b: int| 0 <= a < b < r.len() implies key(#[trigger] r[a]) > key(
            #[trigger] r[b],
        ) || (key(r[a]) == key(r[b]) && r[a] < r[b]) by {
            if a == 0 {
                assert(r[b] == s[b - 1]);
                if b - 1 > 0 {
                    assert(key(s[0]) > key(s[b - 1]) || key(s[0]) == key(s[b - 1]));
                }
            } else {
                assert(r[a] == s[a - 1] && r[b] == s[b - 1]);
            }
        }
        assert forall|y: usize| r.contains(y) <==> (y == x || s.contains(y)) by {
            if s.contains(y) {
                let j = choose|j: int| 0 <= j < s.len() && s[j] == y;
                assert(r[j + 1] == y);
            }
            if r.contains(y) && y != x {
                let j = choose|j: int| 0 <= j < r.len() && r[j] == y;
                assert(s[j - 1] == y);
            }
            if y == x {
                assert(r[0] == x);
            }
        }
    } else {
        let t = s.drop_first();
        assert(sorted_stable(t, key)) by {
            assert forall|a: int, b: int| 0 <= a < b < t.len() implies key(#[trigger] t[a]) > key(
                #[trigger] t[b],
            ) || (key(t[a]) == key(t[b]) && t[a] < t[b]) by {
                assert(t[a] == s[a + 1] && t[b] == s[b + 1]);
            }
        }
        lemma_insert_by(t, x, key);
        let u = insert_by(t, x, key);
        assert(r == seq![s[0]] + u);
        assert forall|a: int, b: int| 0 <= a < b < r.len() implies key(#[trigger] r[a]) > key(
            #[trigger] r[b],
        ) || (key(r[a]) == key(r[b]) && r[a] < r[b]) by {
            if a == 0 {
                assert(r[b] == u[b - 1]);
                assert(u.contains(u[b - 1]));
                if u[b - 1] != x {
                    assert(t.contains(u[b - 1]));
                    let j = choose|j: int| 0 <= j < t.len() && t[j] == u[b - 1];
                    assert(s[j + 1] == u[b - 1]);
                    assert(key(s[0]) > key(s[j + 1]) || (key(s[0]) == key(s[j + 1]) && s[0] < s[j
                        + 1]));
                }
            } else {
                assert(r[a] == u[a - 1] && r[b] == u[b - 1]);
            }
        }
        assert forall|y: usize| r.contains(y) <==> (y == x || s.contains(y)) by {
            if s.contains(y) {
                let j = choose|j: int| 0 <= j < s.len() && s[j] == y;
                if j == 0 {
                    assert(r[0] == y);
                } else {
                    assert(t[j - 1] == y);
                    assert(t.contains(y));
                    assert(u.contains(y));
                    let i = choose|i: int| 0 <= i < u.len() && u[i] == y;
                    assert(r[i + 1] == y);
                }
            }
            if y == x {
                assert(u.contains(x));
                let i = choose|i: int| 0 <= i < u.len() && u[i] == x;
                assert(r[i + 1] == x);
            }
            if r.contains(y) && y != x {
                let j = choose|j: int| 0 <= j < r.len() && r[j] == y;
                if j == 0 {
                    assert(s[0] == y);
                } else {
                    assert(u[j - 1] == y);
                    assert(u.contains(y));
                    assert(t.contains(y));
                    let i = choose|i: int| 0 <= i < t.len() && t[i] == y;
                    assert(s[i + 1] == y);
                }
            }
        }
    }
}

proof fn lemma_listed_upto(ts: Seq<TaskView>, m: DisplayMode, c: ConfView, n: int)
    requires
        0 <= n <= ts.len(),
        ts.len() <= usize::MAX,
    ensures
        sorted_stable(listed_upto(ts, m, c, n), key_fn(ts, c.sort_by)),
        forall|y: usize| #[trigger]
            listed_upto(ts, m, c, n).contains(y) <==> (y < n && selected(ts[y as int], m, c)),
    decreases n,
{
    if n > 0 {
        lemma_listed_upto(ts, m, c, n - 1);
        let prev = listed_upto(ts, m, c, n - 1);
        if selected(ts[n - 1], m, c) {
            assert forall|j: int| 0 <= j < prev.len() implies prev[j] < (n - 1) as usize by {
                assert(prev.contains(prev[j]));
            }
            lemma_insert_by(prev, (n - 1) as usize, key_fn(ts, c.sort_by));
        }
    }
}

/// Listing order: the listing shows exactly the tasks that mode and query
/// let through, each once, with the larger key first (priority `A` before
/// `B` before `C` before none, or the later due date first), and tasks of
/// equal key in their order in the file.
pub proof fn lemma_listing_order(ts: Seq<TaskView>, m: DisplayMode, c: ConfView)
    requires
        ts.len() <= usize::MAX,
    ensures
        forall|a: int, b: int|
            0 <= a < b < listed(ts, m, c).len() ==> sort_key(
                ts[#[trigger] listed(ts, m, c)[a] as int],
                c.sort_by,
            ) > sort_key(ts[#[trigger] listed(ts, m, c)[b] as int], c.sort_by) || (sort_key(
                ts[listed(ts, m, c)[a] as int],
                c.sort_by,
            ) == sort_key(ts[listed(ts, m, c)[b] as int], c.sort_by) && listed(ts, m, c)[a]
                < listed(ts, m, c)[b]),
        forall|y: usize| #[trigger]
            listed(ts, m, c).contains(y) <==> (y < ts.len() && selected(ts[y as int], m, c)),
{
    lemma_listed_upto(ts, m, c, ts.len() as int);
    let l = listed(ts, m, c);
    assert forall|a: int, b: int| 0 <= a < b < l.len() implies sort_key(
        ts[#[trigger] l[a] as int],
        c.sort_by,
    ) > sort_key(ts[#[trigger] l[b] as int], c.sort_by) || (sort_key(ts[l[a] as int], c.sort_by)
        == sort_key(ts[l[b] as int], c.sort_by) && l[a] < l[b]) by {
        let k = key_fn(ts, c.sort_by);
        assert(k(l[a]) > k(l[b]) || (k(l[a]) == k(l[b]) && l[a] < l[b]));
    }
}

/// The sort value of a task.
fn task_key(t: &Task, k: SortKey) -> (r: u32)
    requires
        t.wf(),
    ensures
        r as int == sort_key(t@, k),
{
    match k {
        SortKey::Unsorted => 0,
        SortKey::Priority => t.priority.weight() as u32,
        SortKey::Due => match t.due_to {
            Some(d) => d.key() + 1,
            None => 0,
        },
    }
}

proof fn lemma_insert_at(s: Seq<usize>, x: usize, key: spec_fn(usize) -> int, p: int)
    requires
        0 <= p <= s.len(),
        forall|j: int| 0 <= j < p ==> !(key(x) > key(#[trigger] s[j])),
        p < s.len() ==> key(x) > key(s[p]),
    ensures
        insert_by(s, x, key) == s.subrange(0, p).push(x) + s.subrange(p, s.len() as int),
    decreases p,
{
    if p == 0 {
        if s.len() == 0 {
            assert(s.subrange(0, 0).push(x) + s.subrange(0, 0) =~= seq![x]);
        } else {
            assert(s.subrange(0, 0).push(x) + s.subrange(0, s.len() as int) =~= seq![x] + s);
        }
    } else {
        let t = s.drop_first();
        assert(!(key(x) > key(s[0])));
        assert forall|j: int| 0 <= j < p - 1 implies !(key(x) > key(#[trigger] t[j])) by {
            assert(t[j] == s[j + 1]);
        }
        lemma_insert_at(t, x, key, p - 1);
        assert(seq![s[0]] + (t.subrange(0, p - 1).push(x) + t.subrange(p - 1, t.len() as int))
            =~= s.subrange(0, p).push(x) + s.subrange(p, s.len() as int));
    }
}

/// Inserts position `x` into the ordered positions `out`.
fn insert_sorted(out: &mut Vec<usize>, x: usize, tasks: &Vec<Task>, k: SortKey)
    requires
        x < tasks@.len(),
        all_wf(tasks@),
        forall|j: int| 0 <= j < old(out)@.len() ==> old(out)@[j] < tasks@.len(),
    ensures
        final(out)@ == insert_by(old(out)@, x, key_fn(views(tasks@), k)),
        forall|j: int| 0 <= j < final(out)@.len() ==> final(out)@[j] < tasks@.len(),
{
    let ghost key = key_fn(views(tasks@), k);
    let kx = task_key(&tasks[x], k);
    let mut p: usize = 0;
    let mut found = false;
    while !found && p < out.len()
        invariant
            p <= out@.len(),
            found ==> p < out@.len() && key(x) > key(out@[p as int]),
            out@ == old(out)@,
            x < tasks@.len(),
            all_wf(tasks@),
            key == key_fn(views(tasks@), k),
            kx as int == key(x),
            forall|j: int| 0 <= j < out@.len() ==> out@[j] < tasks@.len(),
            forall|j: int| 0 <= j < p ==> !(key(x) > key(#[trigger] out@[j])),
        decreases out@.len() - p + (if found {
            0int
        } else {
            1
        }),
    {
        let kp = task_key(&tasks[out[p]], k);
        assert(views(tasks@)[out@[p as int] as int] == tasks@[out@[p as int] as int]@);
        assert(key(out@[p as int]) == kp as int);
        if kx > kp {
            found = true;
        } else {
            p = p + 1;
        }
    }
    proof {
        lemma_insert_at(out@, x, key, p as int);
    }
    out.insert(p, x);
    assert(out@ =~= old(out)@.subrange(0, p as int).push(x) + old(out)@.subrange(
        p as int,
        old(out)@.len() as int,
    ));
}

/// The record positions that a listing in mode `mode` under query `conf`
/// shows, in order.
pub fn order(tasks: &Vec<Task>, mode: &DisplayMode, conf: &TaskConf) -> (r: Vec<usize>)
    requires
        all_wf(tasks@),
        opt_wf(conf.due_to),
    ensures
        r@ == listed(views(tasks@), *mode, conf@),
{
    let ghost ts = views(tasks@);
    let mut out: Vec<usize> = Vec::new();
    let mut i: usize = 0;
    while i < tasks.len()
        invariant
            i <= tasks@.len(),
            all_wf(tasks@),
            opt_wf(conf.due_to),
            ts == views(tasks@),
            out@ == listed_upto(ts, *mode, conf@, i as int),
            forall|j: int| 0 <= j < out@.len() ==> out@[j] < tasks@.len(),
        decreases tasks@.len() - i,
    {
        assert(tasks@[i as int].wf());
        if tasks[i].match_mode(mode) && tasks[i].match_conf(conf) {
            insert_sorted(&mut out, i, tasks, conf.sort_by);
        }
        i = i + 1;
    }
    out
}

/// The record position behind shown id `id`: ids count from 1 in listing
/// order.
pub open spec fn shown_row(rows: Seq<usize>, id: usize) -> Option<usize> {
    if 1 <= id <= rows.len() {
        Some(rows[id - 1])
    } else {
        None
    }
}

/// The ids of one listing and the records they stand for. The listing is
/// printed from its last entry to its first, so the top line carries the
/// largest id.
pub struct Selection {
    pub rows: Vec<usize>,
}

impl Selection {
    /// The record behind a shown id, if the id was shown.
    pub fn get(&self, id: usize) -> (r: Option<usize>)
        ensures
            r == shown_row(self.rows@, id),
    {
        if 1 <= id && id <= self.rows.len() {
            Some(self.rows[id - 1])
        } else {
            None
        }
    }

    /// How many ids were shown.
    pub fn len(&self) -> (r: usize)
        ensures
            r == self.rows@.len(),
    {
        self.rows.len()
    }

    /// Every record behind an id lies among the first `n` records.
    pub open spec fn within(&self, n: int) -> bool {
        forall|i: int| 0 <= i < self.rows@.len() ==> self.rows@[i] < n
    }
}

/// The ids for the tasks that mode `mode` and query `conf` let through.
pub fn build_map(tasks: &Vec<Task>, mode: &DisplayMode, conf: &TaskConf) -> (r: Selection)
    requires
        all_wf(tasks@),
        opt_wf(conf.due_to),
    ensures
        r.rows@ == listed(views(tasks@), *mode, conf@),
        r.within(tasks@.len() as int),
{
    let rows = order(tasks, mode, conf);
    let n = tasks.len();
    proof {
        lemma_listed_upto(views(tasks@), *mode, conf@, tasks@.len() as int);
        assert forall|i: int| 0 <= i < rows@.len() implies rows@[i] < tasks@.len() by {
            assert(rows@.contains(rows@[i]));
        }
    }
    Selection { rows }
}

/// Listing is repeatable: two selections built from the same tasks under
/// the same mode and query, with nothing changed in between, show the same
/// ids, each for the same record, in the same order.
pub proof fn lemma_listing_repeatable(
    ts: Seq<Task>,
    m: DisplayMode,
    c: ConfView,
    first: Selection,
    second: Selection,
)
    requires
        first.rows@ == listed(views(ts), m, c),
        second.rows@ == listed(views(ts), m, c),
    ensures
        first.rows@.len() == second.rows@.len(),
        forall|id: usize| shown_row(first.rows@, id) == shown_row(second.rows@, id),
{
}

/// Whether one of the ids stands for a record.
pub open spec fn resolves_any(rows: Seq<usize>, ids: Seq<usize>) -> bool {
    exists|i: int| 0 <= i < ids.len() && (#[trigger] shown_row(rows, ids[i])) is Some
}

/// Whether a batch of ids changes anything: the file is rewritten only when
/// at least one id stands for a record.
pub fn any_resolved(sel: &Selection, ids: &Vec<usize>) -> (r: bool)
    ensures
        r == resolves_any(sel.rows@, ids@),
{
    let mut i: usize = 0;
    while i < ids.len()
        invariant
            i <= ids@.len(),
            forall|j: int| 0 <= j < i ==> (#[trigger] shown_row(sel.rows@, ids@[j])) is None,
        decreases ids@.len() - i,
    {
        if sel.get(ids[i]).is_some() {
            return true;
        }
        i = i + 1;
    }
    false
}

} // verus!
