//! The three-valued domain over which boolean-like symbols and dependency
//! expressions are evaluated.

use vstd::prelude::*;

verus! {

/// A tristate value, ordered `No < Mod < Yes`.
#[derive(Debug, Clone, Copy, PartialEq, Eq, Structural)]
pub enum Tristate {
    No,
    Mod,
    Yes,
}

impl Tristate {
    /// Position of the value in the order `No < Mod < Yes`.
    pub open spec fn rank(self) -> int {
        match self {
            Tristate::No => 0,
            Tristate::Mod => 1,
            Tristate::Yes => 2,
        }
    }

    pub open spec fn spec_le(self, other: Tristate) -> bool {
        self.rank() <= other.rank()
    }

    pub open spec fn spec_lt(self, other: Tristate) -> bool {
        self.rank() < other.rank()
    }

    pub open spec fn spec_min(self, other: Tristate) -> Tristate {
        if self.rank() <= other.rank() {
            self
        } else {
            other
        }
    }

    pub open spec fn spec_max(self, other: Tristate) -> Tristate {
        if self.rank() >= other.rank() {
            self
        } else {
            other
        }
    }

    pub open spec fn spec_invert(self) -> Tristate {
        match self {
            Tristate::No => Tristate::Yes,
            Tristate::Mod => Tristate::Mod,
            Tristate::Yes => Tristate::No,
        }
    }

    pub open spec fn spec_from_bool(b: bool) -> Tristate {
        if b {
            Tristate::Yes
        } else {
            Tristate::No
        }
    }

    /// The single-character rendering: `n`, `m` or `y`.
    pub open spec fn spec_to_char(self) -> char {
        match self {
            Tristate::No => 'n',
            Tristate::Mod => 'm',
            Tristate::Yes => 'y',
        }
    }

    /// Parse of the single-character form; anything but `n`, `m`, `y` is refused.
    pub open spec fn spec_from_char(c: char) -> Option<Tristate> {
        if c == 'n' {
            Some(Tristate::No)
        } else if c == 'm' {
            Some(Tristate::Mod)
        } else if c == 'y' {
            Some(Tristate::Yes)
        } else {
            None
        }
    }

    /// Inversion: `No` and `Yes` swap, `Mod` is its own inverse.
    pub fn invert(self) -> (r: Tristate)
        ensures
            r == self.spec_invert(),
    {
        match self {
            Tristate::No => Tristate::Yes,
            Tristate::Mod => Tristate::Mod,
            Tristate::Yes => Tristate::No,
        }
    }

    pub fn le(self, other: Tristate) -> (r: bool)
        ensures
            r == self.spec_le(other),
    {
        self.to_rank() <= other.to_rank()
    }

    pub fn lt(self, other: Tristate) -> (r: bool)
        ensures
            r == self.spec_lt(other),
    {
        self.to_rank() < other.to_rank()
    }

    pub fn min(self, other: Tristate) -> (r: Tristate)
        ensures
            r == self.spec_min(other),
    {
        if self.to_rank() <= other.to_rank() {
            self
        } else {
            other
        }
    }

    pub fn max(self, other: Tristate) -> (r: Tristate)
        ensures
            r == self.spec_max(other),
    {
        if self.to_rank() >= other.to_rank() {
            self
        } else {
            other
        }
    }

    fn to_rank(self) -> (r: u8)
        ensures
            r as int == self.rank(),
    {
        match self {
            Tristate::No => 0,
            Tristate::Mod => 1,
            Tristate::Yes => 2,
        }
    }

    /// Boolean lift: `true` is `Yes`, `false` is `No`.
    pub fn from_bool(b: bool) -> (r: Tristate)
        ensures
            r == Tristate::spec_from_bool(b),
    {
        if b {
            Tristate::Yes
        } else {
            Tristate::No
        }
    }

    pub fn from_char(c: char) -> (r: Option<Tristate>)
        ensures
            r == Tristate::spec_from_char(c),
    {
        if c == 'n' {
            Some(Tristate::No)
        } else if c == 'm' {
            Some(Tristate::Mod)
        } else if c == 'y' {
            Some(Tristate::Yes)
        } else {
            None
        }
    }

    pub fn to_char(self) -> (r: char)
        ensures
            r == self.spec_to_char(),
    {
        match self {
            Tristate::No => 'n',
            Tristate::Mod => 'm',
            Tristate::Yes => 'y',
        }
    }

    /// Parse of the one-character string form (`"n"`, `"m"` or `"y"`);
    /// any other string is refused.
    pub fn from_str(s: &str) -> (r: Option<Tristate>)
        ensures
            r == Tristate::spec_from_str(s@),
    {
        let n = s.unicode_len();
        if n != 1 {
            None
        } else {
            Tristate::from_char(s.get_char(0))
        }
    }

    pub open spec fn spec_from_str(s: Seq<char>) -> Option<Tristate> {
        if s.len() == 1 {
            Tristate::spec_from_char(s[0])
        } else {
            None
        }
    }

    /// The one-character string rendering, `"n"`, `"m"` or `"y"`.
    pub fn to_str(self) -> (r: &'static str)
        ensures
            r@ == seq![self.spec_to_char()],
    {
        proof {
            reveal_strlit("n");
            reveal_strlit("m");
            reveal_strlit("y");
        }
        match self {
            Tristate::No => "n",
            Tristate::Mod => "m",
            Tristate::Yes => "y",
        }
    }
}

/// Parsing a tristate character and rendering the parsed value yields the
/// character back; rendering and then parsing yields the value back.
pub proof fn lemma_tristate_char_round_trip()
    ensures
        forall|c: char|
            Tristate::spec_from_char(c) is Some ==> (#[trigger] Tristate::spec_from_char(
                c,
            ))->Some_0.spec_to_char() == c,
        forall|t: Tristate| Tristate::spec_from_char(#[trigger] t.spec_to_char()) == Some(t),
{
}

} // verus!
