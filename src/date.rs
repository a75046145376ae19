use chrono::Datelike;
use vstd::prelude::*;

verus! {

/// A calendar day, stored as plain numbers.
#[derive(Clone, Copy, Debug, PartialEq, Eq, Structural)]
pub struct Date {
    pub year: u32,
    pub month: u32,
    pub day: u32,
}

/// Leap years of the proleptic Gregorian calendar.
pub open spec fn is_leap(y: int) -> bool {
    (y % 4 == 0 && y % 100 != 0) || y % 400 == 0
}

/// The number of days of month `m` in year `y`.
pub open spec fn days_in_month(y: int, m: int) -> int {
    if m == 2 {
        if is_leap(y) {
            29
        } else {
            28
        }
    } else if m == 4 || m == 6 || m == 9 || m == 11 {
        30
    } else {
        31
    }
}

/// Whether year `y`, month `m` and day `d` name a day of the calendar.
pub open spec fn valid_date(y: int, m: int, d: int) -> bool {
    1 <= m <= 12 && 1 <= d <= days_in_month(y, m)
}

/// The character of a decimal digit.
pub open spec fn digit_char(d: int) -> char {
    (d + 48) as char
}

/// Whether `c` is an ASCII decimal digit.
pub open spec fn is_digit(c: char) -> bool {
    '0' <= c <= '9'
}

/// The value of an ASCII decimal digit.
pub open spec fn digit_value(c: char) -> int {
    c as int - 48
}

/// `n` written with exactly `width` decimal digits, zeros in front.
pub open spec fn padded(n: int, width: nat) -> Seq<char>
    decreases width,
{
    if width == 0 {
        seq![]
    } else {
        padded(n / 10, (width - 1) as nat).push(digit_char(n % 10))
    }
}

/// The value of a string of decimal digits.
pub open spec fn digits_value(s: Seq<char>) -> int
    decreases s.len(),
{
    if s.len() == 0 {
        0
    } else {
        digits_value(s.drop_last()) * 10 + digit_value(s.last())
    }
}

/// Whether every character of `s` is a decimal digit.
pub open spec fn all_digits(s: Seq<char>) -> bool {
    forall|i: int| 0 <= i < s.len() ==> is_digit(#[trigger] s[i])
}

impl Date {
    /// A date holds a real calendar day whose year has four digits.
    pub open spec fn wf(self) -> bool {
        self.year <= 9999 && valid_date(self.year as int, self.month as int, self.day as int)
    }

    /// The date as a number that grows with time.
    pub open spec fn ordinal(self) -> int {
        self.year as int * 10000 + self.month as int * 100 + self.day as int
    }

    /// The text `YYYY-MM-DD` of the date.
    pub open spec fn text(self) -> Seq<char> {
        padded(self.year as int, 4) + seq!['-'] + padded(self.month as int, 2) + seq!['-']
            + padded(self.day as int, 2)
    }
}

/// Whether `s` has the shape `DDDD-DD-DD` of a date, `D` a decimal digit.
pub open spec fn date_shape(s: Seq<char>) -> bool {
    s.len() == 10 && all_digits(s.subrange(0, 4)) && s[4] == '-' && all_digits(s.subrange(5, 7))
        && s[7] == '-' && all_digits(s.subrange(8, 10))
}

/// The date that the text `YYYY-MM-DD` names, if it names one.
pub open spec fn date_of_text(s: Seq<char>) -> Option<Date> {
    if date_shape(s) && valid_date(
        digits_value(s.subrange(0, 4)),
        digits_value(s.subrange(5, 7)),
        digits_value(s.subrange(8, 10)),
    ) {
        Some(
            Date {
                year: digits_value(s.subrange(0, 4)) as u32,
                month: digits_value(s.subrange(5, 7)) as u32,
                day: digits_value(s.subrange(8, 10)) as u32,
            },
        )
    } else {
        None
    }
}

/// Whether `s[start..start + 10]` has the shape of a date.
pub fn shape_at(s: &Vec<char>, start: usize) -> (r: bool)
    requires
        start + 10 <= s@.len(),
    ensures
        r == date_shape(s@.subrange(start as int, start + 10)),
{
    let ghost t = s@.subrange(start as int, start + 10);
    let n = s.len();
    assert(start + 10 <= n);
    proof {
        assert(t.subrange(0, 4) =~= s@.subrange(start as int, start + 4));
        assert(t.subrange(5, 7) =~= s@.subrange(start + 5, start + 7));
        assert(t.subrange(8, 10) =~= s@.subrange(start + 8, start + 10));
    }
    digits_at(s, start, start + 4) && s[start + 4] == '-' && digits_at(s, start + 5, start + 7)
        && s[start + 7] == '-' && digits_at(s, start + 8, start + 10)
}

/// Relies on chrono::NaiveDate::from_ymd_opt: it returns a date exactly when
/// the month and the day exist in that year of the proleptic Gregorian
/// calendar (years of four digits lie well inside its range).
#[verifier::external_body]
fn calendar_has(year: u32, month: u32, day: u32) -> (r: bool)
    requires
        year <= 9999,
    ensures
        r == valid_date(year as int, month as int, day as int),
{
    chrono::NaiveDate::from_ymd_opt(year as i32, month, day).is_some()
}

/// Relies on chrono::Local::now and DateTime::date_naive: the local calendar
/// day, which, being a NaiveDate, exists in the calendar.
#[verifier::external_body]
fn local_today() -> (r: (i32, u32, u32))
    ensures
        valid_date(r.0 as int, r.1 as int, r.2 as int),
{
    let d = chrono::Local::now().date_naive();
    (d.year(), d.month(), d.day())
}

/// The date that a clock reading of year `y`, month `m` and day `d` names,
/// or `None` where the year has more than four digits or is negative.
pub fn date_of_clock(y: i32, m: u32, d: u32) -> (r: Option<Date>)
    requires
        valid_date(y as int, m as int, d as int),
    ensures
        r is Some <==> 0 <= y <= 9999,
        r matches Some(x) ==> x == (Date { year: y as u32, month: m, day: d }) && x.wf(),
{
    if 0 <= y && y <= 9999 {
        Some(Date { year: y as u32, month: m, day: d })
    } else {
        None
    }
}

/// Today's local date, or `None` where the clock's year has more than four
/// digits.
pub fn today() -> (r: Option<Date>)
    ensures
        r matches Some(d) ==> d.wf(),
{
    let (y, m, d) = local_today();
    date_of_clock(y, m, d)
}

/// The string of one decimal digit.
fn digit_str(d: u32) -> (r: &'static str)
    requires
        d < 10,
    ensures
        r@ == seq![digit_char(d as int)],
{
    proof {
        reveal_strlit("0");
        reveal_strlit("1");
        reveal_strlit("2");
        reveal_strlit("3");
        reveal_strlit("4");
        reveal_strlit("5");
        reveal_strlit("6");
        reveal_strlit("7");
        reveal_strlit("8");
        reveal_strlit("9");
    }
    match d {
        0 => "0",
        1 => "1",
        2 => "2",
        3 => "3",
        4 => "4",
        5 => "5",
        6 => "6",
        7 => "7",
        8 => "8",
        _ => "9",
    }
}

/// Appends `n` with exactly `width` digits.
fn push_padded(out: &mut String, n: u32, width: u32)
    requires
        width <= 4,
    ensures
        final(out)@ == old(out)@ + padded(n as int, width as nat),
    decreases width,
{
    if width > 0 {
        push_padded(out, n / 10, width - 1);
        out.append(digit_str(n % 10));
        proof {
            assert(padded(n as int, width as nat) == padded(n as int / 10, (width - 1) as nat).push(
                digit_char(n as int % 10),
            ));
        }
    }
}

/// The value of the digits `s[from..to]`.
fn read_digits(s: &Vec<char>, from: usize, to: usize) -> (r: u32)
    requires
        from <= to <= s@.len(),
        to - from <= 4,
        all_digits(s@.subrange(from as int, to as int)),
    ensures
        r as int == digits_value(s@.subrange(from as int, to as int)),
{
    let mut v: u32 = 0;
    let mut i: usize = from;
    while i < to
        invariant
            from <= i <= to,
            to <= s@.len(),
            to - from <= 4,
            all_digits(s@.subrange(from as int, to as int)),
            v as int == digits_value(s@.subrange(from as int, i as int)),
            v < pow10((i - from) as nat),
        decreases to - i,
    {
        assert(is_digit(s@.subrange(from as int, to as int)[i - from]));
        let c = s[i];
        let d = (c as u32) - 48;
        proof {
            let a = s@.subrange(from as int, i as int + 1);
            assert(a.drop_last() =~= s@.subrange(from as int, i as int));
            assert(a.last() == c);
            assert(pow10((i + 1 - from) as nat) == 10 * pow10((i - from) as nat));
            lemma_pow10_4();
            lemma_pow10_mono((i + 1 - from) as nat, 4);
        }
        v = v * 10 + d;
        i = i + 1;
    }
    v
}

/// Ten to the power `n`.
pub open spec fn pow10(n: nat) -> int
    decreases n,
{
    if n == 0 {
        1
    } else {
        10 * pow10((n - 1) as nat)
    }
}

proof fn lemma_pow10_4()
    ensures
        pow10(4) == 10000,
{
    reveal_with_fuel(pow10, 5);
}

proof fn lemma_pow10_mono(a: nat, b: nat)
    requires
        a <= b,
    ensures
        1 <= pow10(a) <= pow10(b),
    decreases b,
{
    if b > 0 {
        if a < b {
            lemma_pow10_mono(a, (b - 1) as nat);
        } else {
            lemma_pow10_mono((a - 1) as nat, (b - 1) as nat);
        }
    }
}

impl Date {
    /// A date from its year, month and day, if they name a day of the
    /// calendar and the year has four digits.
    pub fn from_ymd(year: u32, month: u32, day: u32) -> (r: Option<Date>)
        ensures
            r matches Some(d) ==> d == (Date { year, month, day }),
            r is Some <==> (Date { year, month, day }).wf(),
    {
        if year <= 9999 && calendar_has(year, month, day) {
            Some(Date { year, month, day })
        } else {
            None
        }
    }

    /// Reads the date at `s[start..start + 10]`, written `YYYY-MM-DD`.
    pub fn parse_at(s: &Vec<char>, start: usize) -> (r: Option<Date>)
        requires
            start + 10 <= s@.len(),
        ensures
            r == date_of_text(s@.subrange(start as int, start + 10)),
            r matches Some(d) ==> d.wf(),
    {
        let ghost t = s@.subrange(start as int, start + 10);
        let n = s.len();
        assert(start + 10 <= n);
        if !shape_at(s, start) {
            return None;
        }
        proof {
            assert(t.subrange(0, 4) =~= s@.subrange(start as int, start + 4));
            assert(t.subrange(5, 7) =~= s@.subrange(start + 5, start + 7));
            assert(t.subrange(8, 10) =~= s@.subrange(start + 8, start + 10));
        }
        let y = read_digits(s, start, start + 4);
        let m = read_digits(s, start + 5, start + 7);
        let d = read_digits(s, start + 8, start + 10);
        proof {
            assert(t.subrange(0, 4) =~= s@.subrange(start as int, start + 4));
            assert(t.subrange(5, 7) =~= s@.subrange(start + 5, start + 7));
            assert(t.subrange(8, 10) =~= s@.subrange(start + 8, start + 10));
            lemma_digits_bound(s@.subrange(start as int, start + 4));
            lemma_pow10_4();
        }
        if calendar_has(y, m, d) {
            Some(Date { year: y, month: m, day: d })
        } else {
            None
        }
    }

    /// The text `YYYY-MM-DD` of the date.
    pub fn fmt(&self) -> (r: String)
        ensures
            r@ == self.text(),
    {
        let mut out = String::new();
        push_padded(&mut out, self.year, 4);
        out.append("-");
        push_padded(&mut out, self.month, 2);
        out.append("-");
        push_padded(&mut out, self.day, 2);
        proof {
            reveal_strlit("-");
        }
        out
    }

    /// Whether this date comes no later than `other`.
    pub fn not_after(&self, other: &Date) -> (r: bool)
        requires
            self.wf(),
            other.wf(),
        ensures
            r == (self.ordinal() <= other.ordinal()),
    {
        if self.year != other.year {
            self.year < other.year
        } else if self.month != other.month {
            self.month < other.month
        } else {
            self.day <= other.day
        }
    }

    /// Whether this date has passed by `today`.
    pub fn is_over(&self, today: &Date) -> (r: bool)
        requires
            self.wf(),
            today.wf(),
        ensures
            r == (today.ordinal() > self.ordinal()),
    {
        !today.not_after(self)
    }

    /// The date as a number that grows with time.
    pub fn key(&self) -> (r: u32)
        requires
            self.wf(),
        ensures
            r as int == self.ordinal(),
    {
        self.year * 10000 + self.month * 100 + self.day
    }
}

/// Whether `s[from..to]` is all decimal digits.
fn digits_at(s: &Vec<char>, from: usize, to: usize) -> (r: bool)
    requires
        from <= to <= s@.len(),
    ensures
        r == all_digits(s@.subrange(from as int, to as int)),
{
    let mut i: usize = from;
    while i < to
        invariant
            from <= i <= to <= s@.len(),
            all_digits(s@.subrange(from as int, i as int)),
        decreases to - i,
    {
        if !('0' <= s[i] && s[i] <= '9') {
            assert(!is_digit(s@.subrange(from as int, to as int)[i - from]));
            return false;
        }
        assert(s@.subrange(from as int, i + 1) =~= s@.subrange(from as int, i as int).push(s[i as int]));
        i = i + 1;
    }
    true
}

/// Writing the value of a string of digits back with as many digits gives
/// the string again.
pub proof fn lemma_padded_digits(s: Seq<char>)
    requires
        all_digits(s),
    ensures
        padded(digits_value(s), s.len()) == s,
    decreases s.len(),
{
    if s.len() > 0 {
        let p = s.drop_last();
        assert(all_digits(p)) by {
            assert forall|i: int| 0 <= i < p.len() implies is_digit(#[trigger] p[i]) by {
                assert(is_digit(s[i]));
            }
        }
        assert(is_digit(s[s.len() - 1]));
        lemma_padded_digits(p);
        lemma_digits_bound(p);
        let v = digits_value(s);
        let d = digit_value(s.last());
        assert(v == digits_value(p) * 10 + d);
        assert(v / 10 == digits_value(p) && v % 10 == d);
        assert(digit_char(d) == s.last());
        assert(padded(v, s.len()) == padded(v / 10, p.len()).push(digit_char(v % 10)));
        assert(s =~= p.push(s.last()));
    }
}

/// A number written with `width` digits takes `width` characters.
pub proof fn lemma_padded_len(n: int, width: nat)
    ensures
        padded(n, width).len() == width,
    decreases width,
{
    if width > 0 {
        lemma_padded_len(n / 10, (width - 1) as nat);
    }
}

/// The text of a date has ten characters.
pub proof fn lemma_text_len(d: Date)
    ensures
        d.text().len() == 10,
{
    lemma_padded_len(d.year as int, 4);
    lemma_padded_len(d.month as int, 2);
    lemma_padded_len(d.day as int, 2);
}

/// The text of a date read from text is that text.
pub proof fn lemma_text_of_date(s: Seq<char>)
    requires
        date_of_text(s) is Some,
    ensures
        date_of_text(s)->Some_0.text() == s,
{
    let d = date_of_text(s)->Some_0;
    lemma_padded_digits(s.subrange(0, 4));
    lemma_padded_digits(s.subrange(5, 7));
    lemma_padded_digits(s.subrange(8, 10));
    lemma_digits_bound(s.subrange(0, 4));
    lemma_digits_bound(s.subrange(5, 7));
    lemma_digits_bound(s.subrange(8, 10));
    lemma_pow10_4();
    reveal_with_fuel(pow10, 3);
    assert(s =~= s.subrange(0, 4) + seq!['-'] + s.subrange(5, 7) + seq!['-'] + s.subrange(8, 10));
}

proof fn lemma_digits_bound(s: Seq<char>)
    requires
        all_digits(s),
    ensures
        0 <= digits_value(s) < pow10(s.len()),
    decreases s.len(),
{
    if s.len() > 0 {
        assert(all_digits(s.drop_last())) by {
            assert forall|i: int| 0 <= i < s.drop_last().len() implies is_digit(
                #[trigger] s.drop_last()[i],
            ) by {
                assert(is_digit(s[i]));
            }
        }
        assert(is_digit(s[s.len() - 1]));
        lemma_digits_bound(s.drop_last());
    }
}

/// The year, month and day that chrono reads from a text in the format
/// `%Y-%m-%d`, if it reads a date.
pub uninterp spec fn chrono_ymd(s: Seq<char>) -> Option<(int, int, int)>;

/// Relies on chrono::NaiveDate::parse_from_str with the format `%Y-%m-%d`:
/// it reads a date, which exists in the calendar, or fails.
#[verifier::external_body]
fn parse_ymd(s: &str) -> (r: Option<(i32, u32, u32)>)
    ensures
        r matches Some(t) ==> chrono_ymd(s@) == Some((t.0 as int, t.1 as int, t.2 as int))
            && valid_date(t.0 as int, t.1 as int, t.2 as int),
        r is None ==> chrono_ymd(s@) is None,
{
    match chrono::NaiveDate::parse_from_str(s, "%Y-%m-%d") {
        Ok(d) => Some((d.year(), d.month(), d.day())),
        Err(_) => None,
    }
}

impl Date {
    /// The date that a typed text names, as chrono reads `%Y-%m-%d`, where
    /// its year has four digits.
    pub open spec fn read(s: Seq<char>) -> Option<Date> {
        match chrono_ymd(s) {
            Some(t) => if 0 <= t.0 <= 9999 {
                Some(Date { year: t.0 as u32, month: t.1 as u32, day: t.2 as u32 })
            } else {
                None
            },
            None => None,
        }
    }

    /// Reads a typed date, written `YYYY-MM-DD`.
    pub fn from_str(s: &str) -> (r: Option<Date>)
        ensures
            r == Date::read(s@),
            r matches Some(d) ==> d.wf(),
    {
        match parse_ymd(s) {
            Some((y, m, d)) => if 0 <= y && y <= 9999 {
                Some(Date { year: y as u32, month: m, day: d })
            } else {
                None
            },
            None => None,
        }
    }
}

} // verus!
