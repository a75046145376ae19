use vstd::prelude::*;
use crate::date::{Date, all_digits, digits_value, is_digit};
use crate::priority::{Priority, priority_of_char};
use crate::task::{Task, TaskView, opt_wf};
use crate::text::{chars_of, extract_tags, find_run_end, is_white, run_end, starts_token, tags_of, token_starts, white};

verus! {

/// The first position from `i` on that holds no blank.
pub open spec fn skip_blank(s: Seq<char>, i: int) -> int
    decreases s.len() - i,
{
    if i >= s.len() {
        s.len() as int
    } else if is_white(s[i]) {
        skip_blank(s, i + 1)
    } else {
        i
    }
}

/// The end of `s[..j]` once trailing blanks are cut.
pub open spec fn cut_blank(s: Seq<char>, j: int) -> int
    decreases j,
{
    if j <= 0 {
        0
    } else if is_white(s[j - 1]) {
        cut_blank(s, j - 1)
    } else {
        j
    }
}

/// `s` without its leading and trailing blanks.
pub open spec fn trimmed(s: Seq<char>) -> Seq<char> {
    let a = skip_blank(s, 0);
    let b = cut_blank(s, s.len() as int);
    if a < b {
        s.subrange(a, b)
    } else {
        seq![]
    }
}

/// The value that a token names as an id: decimal digits, with an optional
/// `+` in front, that fit in a `usize`.
pub open spec fn id_of(t: Seq<char>) -> Option<usize> {
    let d = if t.len() > 0 && t[0] == '+' {
        t.drop_first()
    } else {
        t
    };
    if d.len() > 0 && all_digits(d) && digits_value(d) <= usize::MAX {
        Some(digits_value(d) as usize)
    } else {
        None
    }
}

/// The ids named by the tokens that start before `n`, in order; tokens
/// that name none are skipped.
pub open spec fn ids_upto(s: Seq<char>, n: int) -> Seq<usize>
    decreases n,
{
    if n <= 0 {
        seq![]
    } else if token_starts(s, n - 1) {
        match id_of(s.subrange(n - 1, run_end(s, n - 1))) {
            Some(v) => ids_upto(s, n - 1).push(v),
            None => ids_upto(s, n - 1),
        }
    } else {
        ids_upto(s, n - 1)
    }
}

/// `s` without its leading and trailing blanks.
pub fn trim(s: &str) -> (r: String)
    ensures
        r@ == trimmed(s@),
{
    let c = chars_of(s);
    let n = c.len();
    let mut a: usize = 0;
    while a < n && white(c[a])
        invariant
            a <= n,
            n == s@.len(),
            c@ == s@,
            skip_blank(s@, 0) == skip_blank(s@, a as int),
        decreases n - a,
    {
        a = a + 1;
    }
    let mut b: usize = n;
    while b > 0 && white(c[b - 1])
        invariant
            b <= n,
            n == s@.len(),
            c@ == s@,
            cut_blank(s@, n as int) == cut_blank(s@, b as int),
        decreases b,
    {
        b = b - 1;
    }
    if a < b {
        String::from_str(s.substring_char(a, b))
    } else {
        String::new()
    }
}

proof fn lemma_digits_grow(s: Seq<char>, j: int, m: int)
    requires
        0 <= j <= m <= s.len(),
        all_digits(s.subrange(0, m)),
    ensures
        digits_value(s.subrange(0, j)) <= digits_value(s.subrange(0, m)),
    decreases m - j,
{
    if j < m {
        let p = s.subrange(0, m);
        assert(is_digit(p[m - 1]));
        assert(p.drop_last() =~= s.subrange(0, m - 1));
        assert(all_digits(s.subrange(0, m - 1))) by {
            assert forall|i: int| 0 <= i < m - 1 implies is_digit(#[trigger] s.subrange(0, m - 1)[i]) by {
                assert(is_digit(p[i]));
            }
        }
        lemma_digits_nonneg(s.subrange(0, m - 1));
        lemma_digits_grow(s, j, m - 1);
    }
}

proof fn lemma_digits_nonneg(s: Seq<char>)
    requires
        all_digits(s),
    ensures
        digits_value(s) >= 0,
    decreases s.len(),
{
    if s.len() > 0 {
        assert(is_digit(s[s.len() - 1]));
        assert(all_digits(s.drop_last())) by {
            assert forall|i: int| 0 <= i < s.drop_last().len() implies is_digit(
                #[trigger] s.drop_last()[i],
            ) by {
                assert(is_digit(s[i]));
            }
        }
        lemma_digits_nonneg(s.drop_last());
    }
}

/// The id that the token `c[from..to]` names, if it names one.
fn id_token(c: &Vec<char>, from: usize, to: usize) -> (r: Option<usize>)
    requires
        from < to <= c@.len(),
    ensures
        r == id_of(c@.subrange(from as int, to as int)),
{
    let ghost t = c@.subrange(from as int, to as int);
    let start: usize = if c[from] == '+' {
        from + 1
    } else {
        from
    };
    let ghost d = c@.subrange(start as int, to as int);
    assert(d =~= (if t.len() > 0 && t[0] == '+' {
        t.drop_first()
    } else {
        t
    }));
    if start >= to {
        return None;
    }
    let mut v: usize = 0;
    let mut i: usize = start;
    while i < to
        invariant
            start <= i <= to <= c@.len(),
            d == c@.subrange(start as int, to as int),
            id_of(c@.subrange(from as int, to as int)) == (if d.len() > 0 && all_digits(d)
                && digits_value(d) <= usize::MAX {
                Some(digits_value(d) as usize)
            } else {
                None
            }),
            all_digits(d.subrange(0, i - start)),
            v as int == digits_value(d.subrange(0, i - start)),
        decreases to - i,
    {
        let ch = c[i];
        if !('0' <= ch && ch <= '9') {
            assert(!is_digit(d[i - start]));
            return None;
        }
        let ghost p = d.subrange(0, i + 1 - start);
        assert(p.drop_last() =~= d.subrange(0, i - start));
        assert(p.last() == ch);
        assert(all_digits(p)) by {
            assert forall|k: int| 0 <= k < p.len() implies is_digit(#[trigger] p[k]) by {
                if k < p.len() - 1 {
                    assert(is_digit(d.subrange(0, i - start)[k]));
                }
            }
        }
        let dv = (ch as u32 - 48) as usize;
        let next = match v.checked_mul(10) {
            Some(w) => w.checked_add(dv),
            None => None,
        };
        match next {
            Some(w) => {
                v = w;
            },
            None => {
                proof {
                    let q = d.subrange(0, i + 1 - start);
                    assert(digits_value(q) > usize::MAX);
                    if all_digits(d) {
                        lemma_digits_grow(d, i + 1 - start, d.len() as int);
                        assert(d.subrange(0, d.len() as int) =~= d);
                        assert(d.subrange(0, i + 1 - start) == q);
                    }
                }
                return None;
            },
        }
        i = i + 1;
    }
    assert(d.subrange(0, to - start) =~= d);
    Some(v)
}

/// The ids typed on a line: every blank-separated token that is a number,
/// in order; other tokens are skipped.
pub fn parse_ids(line: &str) -> (r: Vec<usize>)
    ensures
        r@ == ids_upto(line@, line@.len() as int),
{
    let c = chars_of(line);
    let mut out: Vec<usize> = Vec::new();
    let mut i: usize = 0;
    while i < c.len()
        invariant
            i <= c@.len(),
            c@ == line@,
            out@ == ids_upto(line@, i as int),
        decreases c@.len() - i,
    {
        if starts_token(&c, i) {
            let e = find_run_end(&c, i);
            if e > i {
                match id_token(&c, i, e) {
                    Some(v) => {
                        out.push(v);
                    },
                    None => {},
                }
            }
        }
        i = i + 1;
    }
    out
}

/// The field of a task that a modification replaces.
#[derive(Clone, Copy, Debug, PartialEq, Eq, Structural)]
pub enum Field {
    Priority,
    Content,
    Due,
}

/// The field that an answer names: `P`, `C` or `D`, in either case, blanks
/// around it ignored.
pub open spec fn field_of(s: Seq<char>) -> Option<Field> {
    let t = trimmed(s);
    if t == seq!['P'] || t == seq!['p'] {
        Some(Field::Priority)
    } else if t == seq!['C'] || t == seq!['c'] {
        Some(Field::Content)
    } else if t == seq!['D'] || t == seq!['d'] {
        Some(Field::Due)
    } else {
        None
    }
}

impl Field {
    /// Reads the field that an answer names.
    pub fn from_answer(s: &str) -> (r: Option<Field>)
        ensures
            r == field_of(s@),
    {
        let t = trim(s);
        if t.as_str().unicode_len() != 1 {
            return None;
        }
        let c = t.as_str().get_char(0);
        assert(t@ =~= seq![c]);
        if c == 'P' || c == 'p' {
            Some(Field::Priority)
        } else if c == 'C' || c == 'c' {
            Some(Field::Content)
        } else if c == 'D' || c == 'd' {
            Some(Field::Due)
        } else {
            None
        }
    }
}

/// A replacement of one field of a task.
#[derive(Debug)]
pub enum Edit {
    Priority(Priority),
    Content(String),
    Due(Option<Date>),
}

/// The priority that an answer asks for: its first character once blanks
/// are cut, none for an empty answer.
pub fn priority_answer(s: &str) -> (r: Priority)
    ensures
        trimmed(s@).len() > 0 ==> r == priority_of_char(trimmed(s@)[0]),
        trimmed(s@).len() == 0 ==> r == Priority::O,
{
    let t = trim(s);
    if t.as_str().unicode_len() == 0 {
        Priority::O
    } else {
        Priority::from_char(t.as_str().get_char(0))
    }
}

/// The content that an answer gives, blanks cut; an empty answer gives
/// none and leaves the content as it was.
pub fn content_answer(s: &str) -> (r: Option<String>)
    ensures
        trimmed(s@).len() > 0 ==> (r matches Some(c) && c@ == trimmed(s@)),
        trimmed(s@).len() == 0 ==> r is None,
{
    let t = trim(s);
    if t.as_str().unicode_len() == 0 {
        None
    } else {
        Some(t)
    }
}

/// A typed date that names no day.
#[derive(Clone, Copy, Debug, PartialEq, Eq, Structural)]
pub struct DateError;

/// The due date that an answer gives: an empty answer clears it, a date
/// sets it, anything else is refused.
pub fn due_answer(s: &str) -> (r: Result<Option<Date>, DateError>)
    ensures
        trimmed(s@).len() == 0 ==> r == Ok::<Option<Date>, DateError>(None),
        trimmed(s@).len() > 0 ==> r == match Date::read(trimmed(s@)) {
            Some(d) => Ok::<Option<Date>, DateError>(Some(d)),
            None => Err(DateError),
        },
        r matches Ok(d) ==> opt_wf(d),
{
    let t = trim(s);
    if t.as_str().unicode_len() == 0 {
        Ok(None)
    } else {
        match Date::from_str(t.as_str()) {
            Some(d) => Ok(Some(d)),
            None => Err(DateError),
        }
    }
}

/// Replaces one field of a task; a new content brings its own tags.
pub fn edit_task(task: &mut Task, edit: Edit)
    requires
        old(task).wf(),
        edit matches Edit::Due(d) ==> opt_wf(d),
    ensures
        final(task).wf(),
        match edit {
            Edit::Priority(p) => final(task)@ == (TaskView { priority: p, ..old(task)@ }),
            Edit::Content(c) => final(task)@ == (TaskView {
                content: c@,
                tags: tags_of(c@),
                ..old(task)@
            }),
            Edit::Due(d) => final(task)@ == (TaskView { due_to: d, ..old(task)@ }),
        },
{
    match edit {
        Edit::Priority(p) => {
            task.priority = p;
        },
        Edit::Content(c) => {
            let tags = extract_tags(c.as_str());
            task.content = c;
            task.tags = tags;
        },
        Edit::Due(d) => {
            task.due_to = d;
        },
    }
}

} // verus!
