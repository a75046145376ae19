use vstd::prelude::*;
use crate::select::{all_wf, views};
use crate::task::{Task, TaskView, line_of, parse_line, parse_spec};

verus! {

/// Why a task list could not be loaded.
#[derive(Clone, Copy, Debug, PartialEq, Eq, Structural)]
pub enum LoadError {
    /// The line with this number (counted from 1) breaks the grammar.
    Format { line: usize },
    /// The list holds no task.
    Empty,
}

/// The tasks of the first `n` lines, empty lines skipped, or the number of
/// the first line that breaks the grammar.
pub open spec fn parse_all(ls: Seq<Seq<char>>, n: int) -> Result<Seq<TaskView>, usize>
    decreases n,
{
    if n <= 0 {
        Ok(seq![])
    } else {
        match parse_all(ls, n - 1) {
            Err(e) => Err(e),
            Ok(ts) => if ls[n - 1].len() == 0 {
                Ok(ts)
            } else {
                match parse_spec(ls[n - 1]) {
                    Some(t) => Ok(ts.push(t)),
                    None => Err(n as usize),
                }
            },
        }
    }
}

/// The text of a file that holds `ts`, one line each.
pub open spec fn file_text(ts: Seq<TaskView>, n: int) -> Seq<char>
    decreases n,
{
    if n <= 0 {
        seq![]
    } else {
        file_text(ts, n - 1) + line_of(ts[n - 1]) + seq!['\n']
    }
}

/// The texts of a sequence of strings.
pub open spec fn texts(ls: Seq<String>) -> Seq<Seq<char>> {
    ls.map_values(|l: String| l@)
}

proof fn lemma_parse_all_err(ls: Seq<Seq<char>>, j: int, n: int)
    requires
        0 <= j <= n,
        parse_all(ls, j) is Err,
    ensures
        parse_all(ls, n) == parse_all(ls, j),
    decreases n - j,
{
    if j < n {
        lemma_parse_all_err(ls, j + 1, n);
    }
}

/// Reads the lines of a task list, skipping empty ones; any other line that
/// breaks the grammar fails the whole list.
pub fn parse_lines(lines: &Vec<String>) -> (r: Result<Vec<Task>, LoadError>)
    ensures
        r matches Ok(ts) ==> parse_all(texts(lines@), lines@.len() as int) == Ok::<
            Seq<TaskView>,
            usize,
        >(views(ts@)) && all_wf(ts@),
        r matches Err(e) ==> e matches LoadError::Format { line } && parse_all(
            texts(lines@),
            lines@.len() as int,
        ) == Err::<Seq<TaskView>, usize>(line),
        r is Ok <==> parse_all(texts(lines@), lines@.len() as int) is Ok,
{
    let ghost ls = texts(lines@);
    let mut out: Vec<Task> = Vec::new();
    assert(views(out@) =~= seq![]);
    let mut i: usize = 0;
    while i < lines.len()
        invariant
            i <= lines@.len(),
            ls == texts(lines@),
            parse_all(ls, i as int) == Ok::<Seq<TaskView>, usize>(views(out@)),
            all_wf(out@),
        decreases lines@.len() - i,
    {
        let line = lines[i].as_str();
        assert(ls[i as int] == line@);
        if line.unicode_len() > 0 {
            match parse_line(line) {
                Ok(t) => {
                    let ghost prev = views(out@);
                    let ghost tv = t@;
                    out.push(t);
                    assert(views(out@) =~= prev.push(tv));
                },
                Err(_) => {
                    proof {
                        lemma_parse_all_err(ls, i + 1, lines@.len() as int);
                    }
                    return Err(LoadError::Format { line: i + 1 });
                },
            }
        }
        i = i + 1;
    }
    Ok(out)
}

/// Reads a task list that must hold at least one task.
pub fn get_tasks(lines: &Vec<String>) -> (r: Result<Vec<Task>, LoadError>)
    ensures
        r matches Ok(ts) ==> parse_all(texts(lines@), lines@.len() as int) == Ok::<
            Seq<TaskView>,
            usize,
        >(views(ts@)) && ts@.len() > 0 && all_wf(ts@),
        r matches Err(LoadError::Format { line }) ==> parse_all(
            texts(lines@),
            lines@.len() as int,
        ) == Err::<Seq<TaskView>, usize>(line),
        r == Err::<Vec<Task>, LoadError>(LoadError::Empty) <==> parse_all(
            texts(lines@),
            lines@.len() as int,
        ) == Ok::<Seq<TaskView>, usize>(seq![]),
{
    match parse_lines(lines) {
        Ok(ts) => if ts.len() == 0 {
            assert(views(ts@) =~= seq![]);
            Err(LoadError::Empty)
        } else {
            assert(views(ts@).len() > 0);
            Ok(ts)
        },
        Err(e) => Err(e),
    }
}

/// The whole text of a task list: each task's line, each ended by a newline,
/// in the order of the records.
pub fn write_tasks(tasks: &Vec<Task>) -> (r: String)
    ensures
        r@ == file_text(views(tasks@), tasks@.len() as int),
{
    let mut out = String::new();
    let mut i: usize = 0;
    proof {
        reveal_strlit("\n");
    }
    while i < tasks.len()
        invariant
            i <= tasks@.len(),
            out@ == file_text(views(tasks@), i as int),
        decreases tasks@.len() - i,
    {
        let line = tasks[i].stringify();
        assert(views(tasks@)[i as int] == tasks@[i as int]@);
        out.append(line.as_str());
        out.append("\n");
        proof {
            reveal_strlit("\n");
        }
        i = i + 1;
    }
    out
}

} // verus!
