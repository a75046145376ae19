use vstd::prelude::*;

verus! {

/// How urgent a task is: `A` is the highest, `O` means none.
#[derive(Clone, Copy, Debug, PartialEq, Eq, Structural)]
pub enum Priority {
    A,
    B,
    C,
    O,
}

/// The weight of a priority: `A > B > C > O`.
pub open spec fn rank(p: Priority) -> int {
    match p {
        Priority::A => 3,
        Priority::B => 2,
        Priority::C => 1,
        Priority::O => 0,
    }
}

/// The letter a priority is written with.
pub open spec fn priority_letter(p: Priority) -> char {
    match p {
        Priority::A => 'A',
        Priority::B => 'B',
        Priority::C => 'C',
        Priority::O => 'O',
    }
}

/// The priority a character stands for, in either case; any other
/// character means none.
pub open spec fn priority_of_char(c: char) -> Priority {
    if c == 'A' || c == 'a' {
        Priority::A
    } else if c == 'B' || c == 'b' {
        Priority::B
    } else if c == 'C' || c == 'c' {
        Priority::C
    } else {
        Priority::O
    }
}

impl Default for Priority {
    fn default() -> (r: Priority)
        ensures
            r == Priority::O,
    {
        Priority::O
    }
}

impl From<char> for Priority {
    fn from(c: char) -> (r: Priority)
        ensures
            r == priority_of_char(c),
    {
        Priority::from_char(c)
    }
}

impl vstd::std_specs::convert::FromSpecImpl<char> for Priority {
    open spec fn obeys_from_spec() -> bool {
        true
    }

    open spec fn from_spec(c: char) -> Priority {
        priority_of_char(c)
    }
}

impl PartialOrd for Priority {
    fn partial_cmp(&self, other: &Priority) -> (r: Option<core::cmp::Ordering>)
        ensures
            r == Some(compare_rank(*self, *other)),
    {
        let (a, b) = (self.weight(), other.weight());
        if a < b {
            Some(core::cmp::Ordering::Less)
        } else if a > b {
            Some(core::cmp::Ordering::Greater)
        } else {
            Some(core::cmp::Ordering::Equal)
        }
    }
}

/// How two priorities compare by weight.
pub open spec fn compare_rank(a: Priority, b: Priority) -> core::cmp::Ordering {
    if rank(a) < rank(b) {
        core::cmp::Ordering::Less
    } else if rank(a) > rank(b) {
        core::cmp::Ordering::Greater
    } else {
        core::cmp::Ordering::Equal
    }
}

impl vstd::std_specs::cmp::PartialOrdSpecImpl for Priority {
    open spec fn obeys_partial_cmp_spec() -> bool {
        true
    }

    open spec fn partial_cmp_spec(&self, other: &Priority) -> Option<core::cmp::Ordering> {
        Some(compare_rank(*self, *other))
    }
}

impl Priority {
    /// The letter of this priority: `"A"`, `"B"`, `"C"` or `"O"`.
    pub fn as_str(&self) -> (r: &'static str)
        ensures
            r@ == seq![priority_letter(*self)],
    {
        proof {
            reveal_strlit("A");
            reveal_strlit("B");
            reveal_strlit("C");
            reveal_strlit("O");
        }
        match self {
            Priority::A => "A",
            Priority::B => "B",
            Priority::C => "C",
            Priority::O => "O",
        }
    }

    /// The letter of this priority as a character.
    pub fn letter(&self) -> (r: char)
        ensures
            r == priority_letter(*self),
    {
        match self {
            Priority::A => 'A',
            Priority::B => 'B',
            Priority::C => 'C',
            Priority::O => 'O',
        }
    }

    /// The weight of this priority, `A` highest.
    pub fn weight(&self) -> (r: u8)
        ensures
            r as int == rank(*self),
    {
        match self {
            Priority::A => 3,
            Priority::B => 2,
            Priority::C => 1,
            Priority::O => 0,
        }
    }

    /// The priority a character stands for; never fails.
    pub fn from_char(c: char) -> (r: Priority)
        ensures
            r == priority_of_char(c),
    {
        if c == 'A' || c == 'a' {
            Priority::A
        } else if c == 'B' || c == 'b' {
            Priority::B
        } else if c == 'C' || c == 'c' {
            Priority::C
        } else {
            Priority::O
        }
    }

    /// Reads a priority from a one-letter string, in either case; any other
    /// string means none.
    pub fn from_str(s: &str) -> (r: Priority)
        ensures
            s@.len() == 1 ==> r == priority_of_char(s@[0]),
            s@.len() != 1 ==> r == Priority::O,
    {
        if s.unicode_len() == 1 {
            Priority::from_char(s.get_char(0))
        } else {
            Priority::O
        }
    }

    /// Whether this priority is at least `other`.
    pub fn at_least(&self, other: &Priority) -> (r: bool)
        ensures
            r == (rank(*self) >= rank(*other)),
    {
        self.weight() >= other.weight()
    }
}

/// Priorities are totally ordered `A > B > C > O`: each of them outranks
/// every later one, and no two different priorities weigh the same.
pub proof fn priority_order(a: Priority, b: Priority)
    ensures
        rank(Priority::A) > rank(Priority::B),
        rank(Priority::B) > rank(Priority::C),
        rank(Priority::C) > rank(Priority::O),
        rank(a) == rank(b) <==> a == b,
        compare_rank(a, b) == core::cmp::Ordering::Greater <==> rank(a) > rank(b),
{
}

} // verus!
