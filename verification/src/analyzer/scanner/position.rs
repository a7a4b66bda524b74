use vstd::prelude::*;
use vstd::string::StringExecFns;

verus! {

/// A location inside a scanner buffer: the absolute character offset
/// together with the zero-based line and column of that same character.
#[derive(Clone, Copy, Debug, PartialEq, Eq, Structural)]
pub struct Position {
    pub index: usize,
    pub line: usize,
    pub column: usize,
}

/// The position that follows `p` once the character `c` has been consumed:
/// the offset always grows by one; a line feed opens a new line, any other
/// character moves one column to the right.
pub open spec fn spec_advanced(p: Position, c: char) -> Position {
    Position {
        index: (p.index + 1) as usize,
        line: if c == '\n' {
            (p.line + 1) as usize
        } else {
            p.line
        },
        column: if c == '\n' {
            0usize
        } else {
            (p.column + 1) as usize
        },
    }
}

/// The decimal digit `d` (at most nine) as a character.
pub open spec fn spec_digit_char(d: nat) -> char {
    if d == 0 {
        '0'
    } else if d == 1 {
        '1'
    } else if d == 2 {
        '2'
    } else if d == 3 {
        '3'
    } else if d == 4 {
        '4'
    } else if d == 5 {
        '5'
    } else if d == 6 {
        '6'
    } else if d == 7 {
        '7'
    } else if d == 8 {
        '8'
    } else {
        '9'
    }
}

/// The decimal digits of `n`, most significant first.
pub open spec fn spec_udec(n: nat) -> Seq<char>
    decreases n,
{
    if n < 10 {
        seq![spec_digit_char(n)]
    } else {
        spec_udec(n / 10).push(spec_digit_char(n % 10))
    }
}

/// The one-based, human-readable rendering of a position: "line:column".
pub open spec fn spec_position_text(p: Position) -> Seq<char> {
    spec_udec((p.line + 1) as nat) + ":"@ + spec_udec((p.column + 1) as nat)
}

/// The decimal digit `d` (at most nine) as a string slice.
fn digit_str(d: usize) -> (s: &'static str)
    requires
        d < 10,
    ensures
        s@ == seq![spec_digit_char(d as nat)],
{
    let s: &'static str = if d == 0 {
        "0"
    } else if d == 1 {
        "1"
    } else if d == 2 {
        "2"
    } else if d == 3 {
        "3"
    } else if d == 4 {
        "4"
    } else if d == 5 {
        "5"
    } else if d == 6 {
        "6"
    } else if d == 7 {
        "7"
    } else if d == 8 {
        "8"
    } else {
        "9"
    };
    proof {
        reveal_strlit("0");
        reveal_strlit("1");
        reveal_strlit("2");
        reveal_strlit("3");
        reveal_strlit("4");
        reveal_strlit("5");
        reveal_strlit("6");
        reveal_strlit("7");
        reveal_strlit("8");
        reveal_strlit("9");
        assert(s@ =~= seq![spec_digit_char(d as nat)]);
    }
    s
}

/// Renders `n` in decimal.
pub(crate) fn udec(n: usize) -> (s: String)
    ensures
        s@ == spec_udec(n as nat),
    decreases n,
{
    if n < 10 {
        let s = String::from_str(digit_str(n));
        proof {
            assert(s@ =~= spec_udec(n as nat));
        }
        s
    } else {
        let mut s = udec(n / 10);
        s.append(digit_str(n % 10));
        proof {
            assert(s@ =~= spec_udec(n as nat));
        }
        s
    }
}

impl Position {
    /// A position whose line and column could come from an actual walk of a
    /// buffer: a character on line `l` and column `c` has at least `l` and at
    /// least `c` characters before it.
    pub open spec fn wf(&self) -> bool {
        self.line <= self.index && self.column <= self.index
    }

    /// Returns a new position with the given coordinates.
    pub fn new(index: usize, line: usize, column: usize) -> (p: Position)
        ensures
            p == (Position { index, line, column }),
    {
        Position { index, line, column }
    }

    /// Returns the origin position, with all coordinates zero.
    pub fn default() -> (p: Position)
        ensures
            p == (Position { index: 0usize, line: 0usize, column: 0usize }),
    {
        Position::new(0, 0, 0)
    }

    /// Moves the position one character forward. The offset always grows by
    /// exactly one; a line feed increments the line and resets the column,
    /// any other character increments the column and keeps the line.
    pub fn advance(&mut self, c: char)
        requires
            old(self).index < usize::MAX,
            c == '\n' ==> old(self).line < usize::MAX,
            c != '\n' ==> old(self).column < usize::MAX,
        ensures
            *final(self) == spec_advanced(*old(self), c),
            final(self).index == old(self).index + 1,
            c == '\n' ==> final(self).line == old(self).line + 1 && final(self).column == 0,
            c != '\n' ==> final(self).line == old(self).line && final(self).column == old(
                self,
            ).column + 1,
            old(self).wf() ==> final(self).wf(),
    {
        self.index += 1;
        if c == '\n' {
            self.line += 1;
            self.column = 0;
        } else {
            self.column += 1;
        }
    }

    /// Renders the position for humans: one-based, as "line:column".
    pub fn to_text(&self) -> (s: String)
        requires
            self.line < usize::MAX,
            self.column < usize::MAX,
        ensures
            s@ == spec_position_text(*self),
    {
        let mut s = udec(self.line + 1);
        s.append(":");
        let col = udec(self.column + 1);
        s.append(col.as_str());
        s
    }
}

} // verus!
