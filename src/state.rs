use vstd::prelude::*;

verus! {

/// Where a task stands in its life.
#[derive(Clone, Copy, Debug, PartialEq, Eq, Structural)]
pub enum State {
    Pending,
    Completed,
    Removed,
}

/// The marker that opens a serialized line of a task in state `s`.
pub open spec fn state_marker(s: State) -> Seq<char> {
    match s {
        State::Pending => seq![],
        State::Completed => seq!['✓', ' '],
        State::Removed => seq!['✗', ' '],
    }
}

impl Default for State {
    fn default() -> (r: State)
        ensures
            r == State::Pending,
    {
        State::Pending
    }
}

impl State {
    /// The line marker of this state: empty, `"✓ "` or `"✗ "`.
    pub fn as_str(&self) -> (r: &'static str)
        ensures
            r@ == state_marker(*self),
    {
        proof {
            reveal_strlit("");
            reveal_strlit("✓ ");
            reveal_strlit("✗ ");
        }
        match self {
            State::Pending => "",
            State::Completed => "✓ ",
            State::Removed => "✗ ",
        }
    }

    /// Reads a state from its bare symbol: `"✓"` is completed, `"✗"` is
    /// removed, anything else is pending.
    pub fn from_str(s: &str) -> (r: State)
        ensures
            r == (if s@ == seq!['✓'] {
                State::Completed
            } else if s@ == seq!['✗'] {
                State::Removed
            } else {
                State::Pending
            }),
    {
        if s.unicode_len() == 1 {
            let c = s.get_char(0);
            if c == '✓' {
                assert(s@ =~= seq!['✓']);
                return State::Completed;
            } else if c == '✗' {
                assert(s@ =~= seq!['✗']);
                return State::Removed;
            }
        }
        State::Pending
    }
}

} // verus!
