use vstd::prelude::*;
use crate::date::Date;
use crate::priority::{Priority, rank};
use crate::state::State;
use crate::text::chars_of;
use crate::task::{Task, TaskView, opt_wf};

verus! {

/// Which states a listing shows.
#[derive(Clone, Copy, Debug, PartialEq, Eq, Structural)]
pub struct DisplayMode {
    pub pending: bool,
    pub completed: bool,
    pub removed: bool,
}

/// The order of a listing: the file's, by priority or by due date, highest
/// or latest first.
#[derive(Clone, Copy, Debug, PartialEq, Eq, Structural)]
pub enum SortKey {
    Unsorted,
    Priority,
    Due,
}

/// What a task must satisfy to be listed or selected; an absent field asks
/// for nothing.
#[derive(Debug)]
pub struct TaskConf {
    pub keyword: Option<String>,
    pub tag: Option<String>,
    pub priority: Option<Priority>,
    pub due_to: Option<Date>,
    pub sort_by: SortKey,
}

/// A query as mathematical values.
pub struct ConfView {
    pub keyword: Option<Seq<char>>,
    pub tag: Option<Seq<char>>,
    pub priority: Option<Priority>,
    pub due_to: Option<Date>,
    pub sort_by: SortKey,
}

impl View for TaskConf {
    type V = ConfView;

    open spec fn view(&self) -> ConfView {
        ConfView {
            keyword: opt_text(self.keyword),
            tag: opt_text(self.tag),
            priority: self.priority,
            due_to: self.due_to,
            sort_by: self.sort_by,
        }
    }
}

/// The mode that the letters `p`, `c`, `r` of `s[..n]` ask for, or the first
/// other character.
pub open spec fn mode_upto(s: Seq<char>, n: int) -> Result<DisplayMode, char>
    decreases n,
{
    if n <= 0 {
        Ok(DisplayMode { pending: false, completed: false, removed: false })
    } else {
        match mode_upto(s, n - 1) {
            Err(c) => Err(c),
            Ok(m) => if s[n - 1] == 'p' {
                Ok(DisplayMode { pending: true, ..m })
            } else if s[n - 1] == 'c' {
                Ok(DisplayMode { completed: true, ..m })
            } else if s[n - 1] == 'r' {
                Ok(DisplayMode { removed: true, ..m })
            } else {
                Err(s[n - 1])
            },
        }
    }
}

/// Whether a listing in mode `m` shows a task in state `s`.
pub open spec fn mode_shows(m: DisplayMode, s: State) -> bool {
    match s {
        State::Pending => m.pending,
        State::Completed => m.completed,
        State::Removed => m.removed,
    }
}

/// Whether `k` occurs in `s` as a run of consecutive characters.
pub open spec fn is_substring(k: Seq<char>, s: Seq<char>) -> bool {
    exists|i: int| 0 <= i && i + k.len() <= s.len() && #[trigger] s.subrange(i, i + k.len()) == k
}

/// The text of an optional string.
pub open spec fn opt_text(o: Option<String>) -> Option<Seq<char>> {
    match o {
        Some(k) => Some(k@),
        None => None,
    }
}

/// The keyword filter.
pub open spec fn keyword_ok(t: TaskView, k: Option<Seq<char>>) -> bool {
    match k {
        Some(k) => is_substring(k, t.content),
        None => true,
    }
}

/// The tag filter.
pub open spec fn tag_ok(t: TaskView, g: Option<Seq<char>>) -> bool {
    match g {
        Some(g) => t.tags.contains(g),
        None => true,
    }
}

/// The minimum-priority filter.
pub open spec fn priority_ok(t: TaskView, p: Option<Priority>) -> bool {
    match p {
        Some(p) => rank(t.priority) >= rank(p),
        None => true,
    }
}

/// The due-date ceiling: a task without a due date fails it.
pub open spec fn due_ok(t: TaskView, d: Option<Date>) -> bool {
    match d {
        Some(d) => t.due_to matches Some(x) && x.ordinal() <= d.ordinal(),
        None => true,
    }
}

/// Whether a task satisfies every filter that the query holds.
pub open spec fn conf_matches(t: TaskView, c: ConfView) -> bool {
    keyword_ok(t, c.keyword) && tag_ok(t, c.tag) && priority_ok(t, c.priority) && due_ok(
        t,
        c.due_to,
    )
}

/// A task matches a query exactly when it satisfies, one by one, each
/// filter that the query holds.
pub proof fn lemma_filter_conjunction(t: TaskView, c: ConfView)
    ensures
        conf_matches(t, c) <==> {
            &&& (c.keyword matches Some(k) ==> is_substring(k, t.content))
            &&& (c.tag matches Some(g) ==> t.tags.contains(g))
            &&& (c.priority matches Some(p) ==> rank(t.priority) >= rank(p))
            &&& (c.due_to matches Some(d) ==> (t.due_to matches Some(x) && x.ordinal()
                <= d.ordinal()))
        },
{
}

/// Whether `k` stands in `h` from position `i` on.
fn matches_at(h: &Vec<char>, k: &Vec<char>, i: usize) -> (r: bool)
    requires
        i + k@.len() <= h@.len(),
    ensures
        r == (h@.subrange(i as int, i + k@.len()) == k@),
{
    let n = h.len();
    let mut q: usize = 0;
    while q < k.len()
        invariant
            n == h@.len(),
            q <= k@.len(),
            i + k@.len() <= h@.len(),
            forall|j: int| 0 <= j < q ==> h@[i + j] == k@[j],
        decreases k@.len() - q,
    {
        if h[i + q] != k[q] {
            assert(h@.subrange(i as int, i + k@.len())[q as int] != k@[q as int]);
            return false;
        }
        q = q + 1;
    }
    assert(h@.subrange(i as int, i + k@.len()) =~= k@);
    true
}

/// Whether `needle` occurs in `hay` as a run of consecutive characters (the
/// empty string occurs everywhere).
pub fn occurs(hay: &str, needle: &str) -> (r: bool)
    ensures
        r == is_substring(needle@, hay@),
{
    let h = chars_of(hay);
    let k = chars_of(needle);
    if k.len() > h.len() {
        return false;
    }
    let last = h.len() - k.len();
    let mut i: usize = 0;
    while i < last
        invariant
            h@ == hay@,
            k@ == needle@,
            last == h@.len() - k@.len(),
            i <= last,
            forall|j: int| 0 <= j < i ==> #[trigger] h@.subrange(j, j + k@.len()) != k@,
        decreases last - i,
    {
        if matches_at(&h, &k, i) {
            return true;
        }
        i = i + 1;
    }
    matches_at(&h, &k, last)
}

impl DisplayMode {
    /// Reads a mode from the letters `p` (pending), `c` (completed) and `r`
    /// (removed); another character is refused and returned.
    pub fn from_str(s: &str) -> (r: Result<DisplayMode, char>)
        ensures
            r == mode_upto(s@, s@.len() as int),
    {
        let n = s.unicode_len();
        let mut m = DisplayMode { pending: false, completed: false, removed: false };
        let mut i: usize = 0;
        while i < n
            invariant
                i <= n,
                n == s@.len(),
                mode_upto(s@, i as int) == Ok::<DisplayMode, char>(m),
            decreases n - i,
        {
            let c = s.get_char(i);
            if c == 'p' {
                m.pending = true;
            } else if c == 'c' {
                m.completed = true;
            } else if c == 'r' {
                m.removed = true;
            } else {
                assert(mode_upto(s@, i + 1) == Err::<DisplayMode, char>(c));
                proof {
                    lemma_mode_err_stays(s@, i + 1, n as int);
                }
                return Err(c);
            }
            i = i + 1;
        }
        Ok(m)
    }

    /// Only pending tasks.
    pub fn pending_only() -> (r: DisplayMode)
        ensures
            r == (DisplayMode { pending: true, completed: false, removed: false }),
    {
        DisplayMode { pending: true, completed: false, removed: false }
    }

    /// Tasks in every state.
    pub fn all() -> (r: DisplayMode)
        ensures
            r == (DisplayMode { pending: true, completed: true, removed: true }),
    {
        DisplayMode { pending: true, completed: true, removed: true }
    }
}

proof fn lemma_mode_err_stays(s: Seq<char>, j: int, n: int)
    requires
        0 <= j <= n,
        mode_upto(s, j) is Err,
    ensures
        mode_upto(s, n) == mode_upto(s, j),
    decreases n - j,
{
    if j < n {
        lemma_mode_err_stays(s, j + 1, n);
    }
}

impl SortKey {
    /// Reads a sort key: `p` or `priority`, `d` or `due`; anything else
    /// keeps the file's order.
    pub fn from_str(s: &str) -> (r: SortKey)
        ensures
            r == (if s@ == seq!['p'] || s@ == seq!['p', 'r', 'i', 'o', 'r', 'i', 't', 'y'] {
                SortKey::Priority
            } else if s@ == seq!['d'] || s@ == seq!['d', 'u', 'e'] {
                SortKey::Due
            } else {
                SortKey::Unsorted
            }),
    {
        let t = String::from_str(s);
        let p = String::from_str("p");
        let priority = String::from_str("priority");
        let d = String::from_str("d");
        let due = String::from_str("due");
        proof {
            reveal_strlit("p");
            reveal_strlit("priority");
            reveal_strlit("d");
            reveal_strlit("due");
            assert(p@ =~= seq!['p']);
            assert(priority@ =~= seq!['p', 'r', 'i', 'o', 'r', 'i', 't', 'y']);
            assert(d@ =~= seq!['d']);
            assert(due@ =~= seq!['d', 'u', 'e']);
        }
        if t == p || t == priority {
            SortKey::Priority
        } else if t == d || t == due {
            SortKey::Due
        } else {
            SortKey::Unsorted
        }
    }
}

impl Task {
    /// Whether the display mode lets the record through.
    pub fn match_mode(&self, mode: &DisplayMode) -> (r: bool)
        ensures
            r == mode_shows(*mode, self.state),
    {
        match self.state {
            State::Pending => mode.pending,
            State::Completed => mode.completed,
            State::Removed => mode.removed,
        }
    }

    /// Whether the task satisfies every filter of the query.
    pub fn match_conf(&self, conf: &TaskConf) -> (r: bool)
        requires
            self.wf(),
            opt_wf(conf.due_to),
        ensures
            r == conf_matches(self@, conf@),
    {
        self.contain_keyword(&conf.keyword) && self.contain_tag(&conf.tag) && self.higher_priority(
            conf.priority,
        ) && self.before_due_to(conf.due_to)
    }

    /// Whether the content holds the keyword, if one is given.
    pub fn contain_keyword(&self, keyword: &Option<String>) -> (r: bool)
        ensures
            r == keyword_ok(self@, opt_text(*keyword)),
    {
        match keyword {
            Some(k) => occurs(self.content.as_str(), k.as_str()),
            None => true,
        }
    }

    /// Whether the task carries the tag, if one is given.
    pub fn contain_tag(&self, tag: &Option<String>) -> (r: bool)
        ensures
            r == tag_ok(self@, opt_text(*tag)),
    {
        match tag {
            Some(t) => {
                let mut i: usize = 0;
                while i < self.tags.len()
                    invariant
                        i <= self.tags@.len(),
                        opt_text(*tag) == Some(t@),
                        forall|j: int| 0 <= j < i ==> self.tags@[j]@ != t@,
                    decreases self.tags@.len() - i,
                {
                    if self.tags[i] == *t {
                        assert(self@.tags[i as int] == t@);
                        assert(self@.tags.contains(t@));
                        return true;
                    }
                    i = i + 1;
                }
                assert(!self@.tags.contains(t@)) by {
                    if self@.tags.contains(t@) {
                        let j = choose|j: int| 0 <= j < self@.tags.len() && self@.tags[j] == t@;
                        assert(self.tags@[j]@ == t@);
                    }
                }
                false
            },
            None => true,
        }
    }

    /// Whether the priority is at least the one given, if any.
    pub fn higher_priority(&self, priority: Option<Priority>) -> (r: bool)
        ensures
            r == priority_ok(self@, priority),
    {
        match priority {
            Some(p) => self.priority.at_least(&p),
            None => true,
        }
    }

    /// Whether the task is due on or before the date given, if any.
    pub fn before_due_to(&self, due_to: Option<Date>) -> (r: bool)
        requires
            self.wf(),
            due_to matches Some(d) ==> d.wf(),
        ensures
            r == due_ok(self@, due_to),
    {
        match due_to {
            Some(d) => match self.due_to {
                Some(x) => x.not_after(&d),
                None => false,
            },
            None => true,
        }
    }
}

} // verus!
