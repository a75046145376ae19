use vstd::prelude::*;

verus! {

/// Whether `c` has the Unicode `White_Space` property: tab through carriage
/// return, space, next line, no-break space, ogham space mark, the spaces
/// from en quad to hair space, line and paragraph separators, narrow
/// no-break space, medium mathematical space and ideographic space.
pub open spec fn is_white(c: char) -> bool {
    ('\u{9}' <= c <= '\u{d}') || c == ' ' || c == '\u{85}' || c == '\u{a0}' || c == '\u{1680}'
        || ('\u{2000}' <= c <= '\u{200a}') || c == '\u{2028}' || c == '\u{2029}' || c
        == '\u{202f}' || c == '\u{205f}' || c == '\u{3000}'
}

/// Whether `c` is a Unicode word character (letters, marks, decimal
/// numbers, connector punctuation, joiners).
pub uninterp spec fn is_word_char(c: char) -> bool;

/// Whether the character has the Unicode `White_Space` property.
pub fn white(c: char) -> (r: bool)
    ensures
        r == is_white(c),
{
    ('\u{9}' <= c && c <= '\u{d}') || c == ' ' || c == '\u{85}' || c == '\u{a0}' || c == '\u{1680}'
        || ('\u{2000}' <= c && c <= '\u{200a}') || c == '\u{2028}' || c == '\u{2029}' || c
        == '\u{202f}' || c == '\u{205f}' || c == '\u{3000}'
}

/// Relies on regex_syntax::is_word_character: whether the character belongs
/// to the class that `\w` matches in a regular expression (it panics only
/// without the `unicode-perl` feature, which the default features hold).
#[verifier::external_body]
pub(crate) fn word_char(c: char) -> (r: bool)
    ensures
        r == is_word_char(c),
{
    regex_syntax::is_word_character(c)
}

/// The end of the run of non-blank characters that starts at `i`.
pub open spec fn run_end(s: Seq<char>, i: int) -> int
    decreases s.len() - i,
{
    if i >= s.len() {
        s.len() as int
    } else if is_white(s[i]) {
        i
    } else {
        run_end(s, i + 1)
    }
}

/// Whether a whitespace-delimited token starts at `i`.
pub open spec fn token_starts(s: Seq<char>, i: int) -> bool {
    0 <= i < s.len() && !is_white(s[i]) && (i == 0 || is_white(s[i - 1]))
}

/// The tag whose token starts at `i`: a token `#word` gives `word`.
pub open spec fn tag_at(s: Seq<char>, i: int) -> Option<Seq<char>> {
    if token_starts(s, i) && s[i] == '#' && run_end(s, i) > i + 1 && (forall|j: int|
        i + 1 <= j < run_end(s, i) ==> is_word_char(#[trigger] s[j])) {
        Some(s.subrange(i + 1, run_end(s, i)))
    } else {
        None
    }
}

/// The tags among the tokens that start before `n`, left to right.
pub open spec fn tags_upto(s: Seq<char>, n: int) -> Seq<Seq<char>>
    decreases n,
{
    if n <= 0 {
        seq![]
    } else {
        match tag_at(s, n - 1) {
            Some(t) => tags_upto(s, n - 1).push(t),
            None => tags_upto(s, n - 1),
        }
    }
}

/// Every `#word` token of `s`, left to right, repeats kept.
pub open spec fn tags_of(s: Seq<char>) -> Seq<Seq<char>> {
    tags_upto(s, s.len() as int)
}

/// The characters of a string.
pub fn chars_of(s: &str) -> (r: Vec<char>)
    ensures
        r@ == s@,
{
    let n = s.unicode_len();
    let mut out: Vec<char> = Vec::new();
    let mut i: usize = 0;
    while i < n
        invariant
            i <= n,
            n == s@.len(),
            out@ == s@.subrange(0, i as int),
        decreases n - i,
    {
        out.push(s.get_char(i));
        i = i + 1;
    }
    assert(out@ =~= s@);
    out
}

/// The end of the run of non-blank characters of `s` that starts at `i`.
pub fn find_run_end(s: &Vec<char>, i: usize) -> (r: usize)
    requires
        i <= s@.len(),
    ensures
        r as int == run_end(s@, i as int),
        i <= r <= s@.len(),
        forall|j: int| i <= j < r ==> !is_white(#[trigger] s@[j]),
{
    let mut j: usize = i;
    while j < s.len()
        invariant
            i <= j <= s@.len(),
            run_end(s@, i as int) == run_end(s@, j as int),
            forall|k: int| i <= k < j ==> !is_white(#[trigger] s@[k]),
        decreases s@.len() - j,
    {
        if white(s[j]) {
            return j;
        }
        j = j + 1;
    }
    j
}

/// Whether a token starts at `i`.
pub fn starts_token(s: &Vec<char>, i: usize) -> (r: bool)
    requires
        i < s@.len(),
    ensures
        r == token_starts(s@, i as int),
{
    !white(s[i]) && (i == 0 || white(s[i - 1]))
}

/// The tag that starts at `i` of `text`, if any (`chars` holds its
/// characters).
fn tag_here(text: &str, chars: &Vec<char>, i: usize) -> (r: Option<String>)
    requires
        chars@ == text@,
        i < chars@.len(),
    ensures
        r matches Some(t) ==> tag_at(text@, i as int) == Some(t@),
        r is None ==> tag_at(text@, i as int) is None,
{
    if !(starts_token(chars, i) && chars[i] == '#') {
        return None;
    }
    let e = find_run_end(chars, i);
    if e - i <= 1 {
        return None;
    }
    let mut j: usize = i + 1;
    while j < e
        invariant
            i + 1 <= j <= e <= chars@.len(),
            chars@ == text@,
            e as int == run_end(text@, i as int),
            forall|k: int| i + 1 <= k < j ==> is_word_char(#[trigger] chars@[k]),
        decreases e - j,
    {
        if !word_char(chars[j]) {
            assert(!is_word_char(text@[j as int]));
            return None;
        }
        j = j + 1;
    }
    Some(String::from_str(text.substring_char(i + 1, e)))
}

/// Every `#word` token of `text`, in order, repeats kept.
pub fn extract_tags(text: &str) -> (r: Vec<String>)
    ensures
        r@.map_values(|t: String| t@) == tags_of(text@),
{
    let chars = chars_of(text);
    let mut out: Vec<String> = Vec::new();
    let mut i: usize = 0;
    while i < chars.len()
        invariant
            i <= chars@.len(),
            chars@ == text@,
            out@.map_values(|t: String| t@) == tags_upto(text@, i as int),
        decreases chars@.len() - i,
    {
        match tag_here(text, &chars, i) {
            Some(t) => {
                out.push(t);
                assert(out@.map_values(|t: String| t@) =~= tags_upto(text@, i as int).push(t@));
            },
            None => {},
        }
        i = i + 1;
    }
    out
}

} // verus!
