use vstd::prelude::*;
use crate::date::{Date, date_of_text, date_shape, lemma_text_of_date, shape_at};
use crate::priority::{Priority, priority_letter, priority_of_char};
use crate::state::{State, state_marker};
use crate::text::{chars_of, extract_tags, tags_of};

verus! {

/// One to-do item.
#[derive(Debug)]
pub struct Task {
    pub state: State,
    pub priority: Priority,
    pub content: String,
    pub created_at: Date,
    pub due_to: Option<Date>,
    pub completed_at: Option<Date>,
    pub tags: Vec<String>,
}

/// What a task holds, as mathematical values.
pub struct TaskView {
    pub state: State,
    pub priority: Priority,
    pub content: Seq<char>,
    pub created_at: Date,
    pub due_to: Option<Date>,
    pub completed_at: Option<Date>,
    pub tags: Seq<Seq<char>>,
}

impl View for Task {
    type V = TaskView;

    open spec fn view(&self) -> TaskView {
        TaskView {
            state: self.state,
            priority: self.priority,
            content: self.content@,
            created_at: self.created_at,
            due_to: self.due_to,
            completed_at: self.completed_at,
            tags: self.tags@.map_values(|t: String| t@),
        }
    }
}

/// A line of the task list does not follow the line grammar.
#[derive(Clone, Copy, Debug, PartialEq, Eq, Structural)]
pub struct FormatError {
    /// The position where reading stopped.
    pub column: usize,
}

/// Whether a date that may be absent is a real one.
pub open spec fn opt_wf(d: Option<Date>) -> bool {
    d matches Some(x) ==> x.wf()
}

impl TaskView {
    /// The dates are real and the tags are those of the content.
    pub open spec fn wf(self) -> bool {
        &&& self.created_at.wf()
        &&& opt_wf(self.due_to)
        &&& opt_wf(self.completed_at)
        &&& self.tags == tags_of(self.content)
    }
}

/// The ` (due:YYYY-MM-DD)` group of a due date.
pub open spec fn due_group(d: Option<Date>) -> Seq<char> {
    match d {
        Some(x) => seq![' ', '(', 'd', 'u', 'e', ':'] + x.text() + seq![')'],
        None => seq![],
    }
}

/// The ` (YYYY-MM-DD)` group of a date.
pub open spec fn date_group(d: Option<Date>) -> Seq<char> {
    match d {
        Some(x) => seq![' ', '('] + x.text() + seq![')'],
        None => seq![],
    }
}

/// The line that stores a task.
pub open spec fn line_of(t: TaskView) -> Seq<char> {
    state_marker(t.state) + seq!['[', priority_letter(t.priority), ']', ' '] + t.content
        + date_group(Some(t.created_at)) + due_group(t.due_to) + date_group(t.completed_at)
}

/// The length of the state marker that opens `s`.
pub open spec fn marker_len(s: Seq<char>) -> int {
    if s.len() >= 2 && (s[0] == '✓' || s[0] == '✗') && s[1] == ' ' {
        2
    } else {
        0
    }
}

/// The state that the marker opening `s` stands for.
pub open spec fn marker_state(s: Seq<char>) -> State {
    if marker_len(s) == 2 && s[0] == '✓' {
        State::Completed
    } else if marker_len(s) == 2 {
        State::Removed
    } else {
        State::Pending
    }
}

/// Whether a group ` (YYYY-MM-DD)` stands at `k`.
pub open spec fn group_at(s: Seq<char>, k: int) -> bool {
    0 <= k && k + 13 <= s.len() && s[k] == ' ' && s[k + 1] == '(' && date_shape(
        s.subrange(k + 2, k + 12),
    ) && s[k + 12] == ')'
}

/// Whether a group ` (due:YYYY-MM-DD)` stands at `k`.
pub open spec fn due_group_at(s: Seq<char>, k: int) -> bool {
    0 <= k && k + 17 <= s.len() && s[k] == ' ' && s[k + 1] == '(' && s[k + 2] == 'd' && s[k
        + 3] == 'u' && s[k + 4] == 'e' && s[k + 5] == ':' && date_shape(s.subrange(k + 6, k + 16))
        && s[k + 16] == ')'
}

/// The first position from `k` on where a date group stands.
pub open spec fn find_group(s: Seq<char>, k: int) -> Option<int>
    decreases s.len() - k,
{
    if k < 0 || k + 13 > s.len() {
        None
    } else if group_at(s, k) {
        Some(k)
    } else {
        find_group(s, k + 1)
    }
}

/// The optional groups that end a line from `e` on: the text of a labelled
/// due date and of an unlabelled date, each if present.
pub open spec fn trailing(s: Seq<char>, e: int) -> Option<(Option<Seq<char>>, Option<Seq<char>>)> {
    let r = s.len() - e;
    if r == 0 {
        Some((None, None))
    } else if r == 13 && group_at(s, e) {
        Some((None, Some(s.subrange(e + 2, e + 12))))
    } else if r == 17 && due_group_at(s, e) {
        Some((Some(s.subrange(e + 6, e + 16)), None))
    } else if r == 30 && due_group_at(s, e) && group_at(s, e + 17) {
        Some((Some(s.subrange(e + 6, e + 16)), Some(s.subrange(e + 19, e + 29))))
    } else {
        None
    }
}

/// Reads the text of an optional date: `None` where the text is there but
/// names no date.
pub open spec fn read_opt_date(t: Option<Seq<char>>) -> Option<Option<Date>> {
    match t {
        None => Some(None),
        Some(x) => match date_of_text(x) {
            Some(d) => Some(Some(d)),
            None => None,
        },
    }
}

/// Which trailing date is the due date and which the completion date: a
/// labelled date is due; an unlabelled one is the completion date beside a
/// labelled one or on a completed task, and the due date otherwise.
pub open spec fn resolve_dates(state: State, due: Option<Date>, plain: Option<Date>) -> (
    Option<Date>,
    Option<Date>,
) {
    match (due, plain) {
        (Some(d), p) => (Some(d), p),
        (None, Some(p)) => if state == State::Completed {
            (None, Some(p))
        } else {
            (Some(p), None)
        },
        (None, None) => (None, None),
    }
}

/// The task that the line `s` stores, or `None` where `s` breaks the
/// grammar `[marker][P] CONTENT (CREATED)[ (due:DUE)][ (DATE)]`.
pub open spec fn parse_spec(s: Seq<char>) -> Option<TaskView> {
    let b = marker_len(s);
    if !(s.len() >= b + 4 && s[b] == '[' && s[b + 2] == ']' && s[b + 3] == ' ') {
        None
    } else {
        match find_group(s, b + 5) {
            None => None,
            Some(k) => match date_of_text(s.subrange(k + 2, k + 12)) {
                None => None,
                Some(created) => match trailing(s, k + 13) {
                    None => None,
                    Some(tr) => match (read_opt_date(tr.0), read_opt_date(tr.1)) {
                        (Some(due), Some(plain)) => {
                            let state = marker_state(s);
                            let dates = resolve_dates(state, due, plain);
                            let content = s.subrange(b + 4, k);
                            Some(
                                TaskView {
                                    state,
                                    priority: priority_of_char(s[b + 1]),
                                    content,
                                    created_at: created,
                                    due_to: dates.0,
                                    completed_at: dates.1,
                                    tags: tags_of(content),
                                },
                            )
                        },
                        _ => None,
                    },
                },
            },
        }
    }
}

/// Whether a date group stands at `k`.
fn group_here(s: &Vec<char>, k: usize) -> (r: bool)
    requires
        k + 13 <= s@.len(),
    ensures
        r == group_at(s@, k as int),
{
    let n = s.len();
    assert(k + 13 <= n);
    s[k] == ' ' && s[k + 1] == '(' && shape_at(s, k + 2) && s[k + 12] == ')'
}

/// Whether a due-date group stands at `k`.
fn due_group_here(s: &Vec<char>, k: usize) -> (r: bool)
    requires
        k + 17 <= s@.len(),
    ensures
        r == due_group_at(s@, k as int),
{
    let n = s.len();
    assert(k + 17 <= n);
    s[k] == ' ' && s[k + 1] == '(' && s[k + 2] == 'd' && s[k + 3] == 'u' && s[k + 4] == 'e' && s[k
        + 5] == ':' && shape_at(s, k + 6) && s[k + 16] == ')'
}

/// The ten characters from `at`, if there is a position.
pub open spec fn text_at(s: Seq<char>, at: Option<usize>) -> Option<Seq<char>> {
    match at {
        Some(i) => Some(s.subrange(i as int, i + 10)),
        None => None,
    }
}

/// Reads the date whose text may start at `at`.
fn read_date_at(s: &Vec<char>, at: Option<usize>) -> (r: Option<Option<Date>>)
    requires
        at matches Some(i) ==> i + 10 <= s@.len(),
    ensures
        r == read_opt_date(text_at(s@, at)),
        r matches Some(Some(d)) ==> d.wf(),
{
    match at {
        None => Some(None),
        Some(i) => match Date::parse_at(s, i) {
            Some(d) => Some(Some(d)),
            None => None,
        },
    }
}

impl Task {
    /// Whether the task is well formed.
    pub open spec fn wf(&self) -> bool {
        self@.wf()
    }

    /// A new pending task, created on `created_at`, with the tags of its
    /// content.
    pub fn new(priority: Priority, content: String, due_to: Option<Date>, created_at: Date) -> (r:
        Task)
        ensures
            r@.state == State::Pending,
            r@.priority == priority,
            r@.content == content@,
            r@.created_at == created_at,
            r@.due_to == due_to,
            r@.completed_at is None,
            r@.tags == tags_of(content@),
    {
        let tags = extract_tags(content.as_str());
        Task { state: State::Pending, priority, content, created_at, due_to, completed_at: None, tags }
    }

    /// The line that stores the task.
    pub fn stringify(&self) -> (r: String)
        ensures
            r@ == line_of(self@),
    {
        let mut s = String::new();
        s.append(self.state.as_str());
        s.append("[");
        s.append(self.priority.as_str());
        s.append("] ");
        s.append(self.content.as_str());
        s.append(" (");
        let created = self.created_at.fmt();
        s.append(created.as_str());
        s.append(")");
        proof {
            reveal_strlit("[");
            reveal_strlit("] ");
            reveal_strlit(" (");
            reveal_strlit(")");
            reveal_strlit(" (due:");
        }
        let ghost head = s@;
        if let Some(d) = self.due_to {
            s.append(" (due:");
            let t = d.fmt();
            s.append(t.as_str());
            s.append(")");
        }
        let ghost mid = s@;
        assert(mid == head + due_group(self.due_to));
        if let Some(d) = self.completed_at {
            s.append(" (");
            let t = d.fmt();
            s.append(t.as_str());
            s.append(")");
        }
        assert(s@ =~= line_of(self@));
        s
    }
}

/// Reads one stored line.
pub fn parse_line(line: &str) -> (r: Result<Task, FormatError>)
    ensures
        r matches Ok(t) ==> parse_spec(line@) == Some(t@) && t.wf(),
        r is Err <==> parse_spec(line@) is None,
{
    let ghost s = line@;
    let chars = chars_of(line);
    let n = chars.len();
    let b: usize = if n >= 2 && (chars[0] == '✓' || chars[0] == '✗') && chars[1] == ' ' {
        2
    } else {
        0
    };
    let state = if b == 2 && chars[0] == '✓' {
        State::Completed
    } else if b == 2 {
        State::Removed
    } else {
        State::Pending
    };
    if !(n >= b + 4 && chars[b] == '[' && chars[b + 2] == ']' && chars[b + 3] == ' ') {
        return Err(FormatError { column: b });
    }
    let mut k: usize = b + 5;
    while n >= 13 && k <= n - 13 && !group_here(&chars, k)
        invariant
            b + 5 <= k <= n + 1,
            n == s.len(),
            chars@ == s,
            find_group(s, b + 5) == find_group(s, k as int),
        decreases n - k,
    {
        k = k + 1;
    }
    if n < 13 || k > n - 13 {
        return Err(FormatError { column: n });
    }
    assert(find_group(s, k as int) == Some(k as int));
    let created = match Date::parse_at(&chars, k + 2) {
        Some(d) => d,
        None => {
            return Err(FormatError { column: k + 2 });
        },
    };
    let e = k + 13;
    let rest = n - e;
    let (due_at, plain_at): (Option<usize>, Option<usize>) = if rest == 0 {
        (None, None)
    } else if rest == 13 && group_here(&chars, e) {
        (None, Some(e + 2))
    } else if rest == 17 && due_group_here(&chars, e) {
        (Some(e + 6), None)
    } else if rest == 30 && due_group_here(&chars, e) && group_here(&chars, e + 17) {
        (Some(e + 6), Some(e + 19))
    } else {
        return Err(FormatError { column: e });
    };
    assert(trailing(s, e as int) == Some((text_at(s, due_at), text_at(s, plain_at))));
    let due = match read_date_at(&chars, due_at) {
        Some(d) => d,
        None => {
            return Err(FormatError { column: e });
        },
    };
    let plain = match read_date_at(&chars, plain_at) {
        Some(d) => d,
        None => {
            return Err(FormatError { column: e });
        },
    };
    let (due_to, completed_at) = match (due, plain) {
        (Some(d), p) => (Some(d), p),
        (None, Some(p)) => if state == State::Completed {
            (None, Some(p))
        } else {
            (Some(p), None)
        },
        (None, None) => (None, None),
    };
    let content = String::from_str(line.substring_char(b + 4, k));
    let tags = extract_tags(content.as_str());
    Ok(
        Task {
            state,
            priority: Priority::from_char(chars[b + 1]),
            content,
            created_at: created,
            due_to,
            completed_at,
            tags,
        },
    )
}

/// Whether `s` is a line that its task writes back unchanged: it parses,
/// its priority letter is one of `A`, `B`, `C`, `O`, and a lone unlabelled
/// trailing date stands only on a completed task (elsewhere it is read as the
/// due date, which is written with its `due:` label).
pub open spec fn canonical_line(s: Seq<char>) -> bool {
    let b = marker_len(s);
    &&& parse_spec(s) is Some
    &&& (s[b + 1] == 'A' || s[b + 1] == 'B' || s[b + 1] == 'C' || s[b + 1] == 'O')
    &&& (s.len() - (find_group(s, b + 5)->Some_0 + 13) == 13 ==> marker_state(s)
        == State::Completed)
}

#[verifier::rlimit(60)]
/// Round trip: a canonical line, read into a task and written back, is the
/// same line, character for character.
pub proof fn lemma_round_trip(s: Seq<char>)
    requires
        canonical_line(s),
    ensures
        line_of(parse_spec(s)->Some_0) == s,
{
    let b = marker_len(s);
    let k = find_group(s, b + 5)->Some_0;
    let t = parse_spec(s)->Some_0;
    let e = k + 13;
    lemma_find_group(s, b + 5);
    lemma_text_of_date(s.subrange(k + 2, k + 12));
    assert(state_marker(t.state) =~= s.subrange(0, b));
    assert(priority_letter(t.priority) == s[b + 1]);
    let head = state_marker(t.state) + seq!['[', priority_letter(t.priority), ']', ' '] + t.content
        + date_group(Some(t.created_at));
    assert(head =~= s.subrange(0, e));
    let r = s.len() - e;
    if r == 0 {
        assert(s =~= head);
    } else if r == 13 && group_at(s, e) {
        lemma_text_of_date(s.subrange(e + 2, e + 12));
        assert(s =~= head + date_group(t.completed_at));
    } else if r == 17 && due_group_at(s, e) {
        lemma_text_of_date(s.subrange(e + 6, e + 16));
        assert(s =~= head + due_group(t.due_to));
    } else {
        lemma_text_of_date(s.subrange(e + 6, e + 16));
        lemma_text_of_date(s.subrange(e + 19, e + 29));
        assert(s =~= head + due_group(t.due_to) + date_group(t.completed_at));
    }
}

/// Where the search for a date group succeeds, it lands on one.
proof fn lemma_find_group(s: Seq<char>, k: int)
    requires
        find_group(s, k) is Some,
    ensures
        group_at(s, find_group(s, k)->Some_0),
        k <= find_group(s, k)->Some_0,
    decreases s.len() - k,
{
    if !(k < 0 || k + 13 > s.len()) && !group_at(s, k) {
        lemma_find_group(s, k + 1);
    }
}

} // verus!
