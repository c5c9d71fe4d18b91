//! A (row, column) coordinate with moves by one or by `n`, and its text forms.

use vstd::prelude::*;
use vstd::string::StringExecFns;

verus! {

/// A (row, column) coordinate.
#[derive(Debug, Clone, Copy, PartialEq, Eq, Structural)]
pub struct Position(pub usize, pub usize);

/// The decimal digit character for `d < 10`.
pub open spec fn digit_char(d: nat) -> char {
    if d == 0 { '0' } else if d == 1 { '1' } else if d == 2 { '2' } else if d == 3 { '3' } else if d
        == 4 { '4' } else if d == 5 { '5' } else if d == 6 { '6' } else if d == 7 { '7' } else if d
        == 8 { '8' } else { '9' }
}

/// The decimal digits of `n`, most significant first, without leading zeros.
pub open spec fn decimal(n: nat) -> Seq<char>
    decreases n,
{
    if n < 10 {
        seq![digit_char(n)]
    } else {
        decimal(n / 10) + seq![digit_char(n % 10)]
    }
}

fn digit_str(d: usize) -> (r: &'static str)
    requires
        d < 10,
    ensures
        r@ == seq![digit_char(d as nat)],
{
    proof {
        reveal_strlit("0");
        reveal_strlit("1");
        reveal_strlit("2");
        reveal_strlit("3");
        reveal_strlit("4");
        reveal_strlit("5");
        reveal_strlit("6");
        reveal_strlit("7");
        reveal_strlit("8");
        reveal_strlit("9");
    }
    if d == 0 {
        "0"
    } else if d == 1 {
        "1"
    } else if d == 2 {
        "2"
    } else if d == 3 {
        "3"
    } else if d == 4 {
        "4"
    } else if d == 5 {
        "5"
    } else if d == 6 {
        "6"
    } else if d == 7 {
        "7"
    } else if d == 8 {
        "8"
    } else {
        "9"
    }
}

/// Appends the decimal digits of `n` to `s`.
fn push_decimal(s: &mut String, n: usize)
    ensures
        final(s)@ == old(s)@ + decimal(n as nat),
    decreases n,
{
    if n < 10 {
        s.append(digit_str(n));
    } else {
        push_decimal(s, n / 10);
        s.append(digit_str(n % 10));
        assert(final(s)@ =~= old(s)@ + decimal(n as nat));
    }
}

impl Position {
    /// One row up.
    pub fn up(&self) -> (r: Self)
        requires
            self.0 >= 1,
        ensures
            r == Position((self.0 - 1) as usize, self.1),
    {
        Position(self.0 - 1, self.1)
    }

    /// `n` rows up.
    pub fn up_n(&self, n: usize) -> (r: Self)
        requires
            self.0 >= n,
        ensures
            r == Position((self.0 - n) as usize, self.1),
    {
        Position(self.0 - n, self.1)
    }

    /// One row down.
    pub fn down(&self) -> (r: Self)
        requires
            self.0 < usize::MAX,
        ensures
            r == Position((self.0 + 1) as usize, self.1),
    {
        Position(self.0 + 1, self.1)
    }

    /// `n` rows down.
    pub fn down_n(&self, n: usize) -> (r: Self)
        requires
            self.0 + n <= usize::MAX,
        ensures
            r == Position((self.0 + n) as usize, self.1),
    {
        Position(self.0 + n, self.1)
    }

    /// One column left.
    pub fn left(&self) -> (r: Self)
        requires
            self.1 >= 1,
        ensures
            r == Position(self.0, (self.1 - 1) as usize),
    {
        Position(self.0, self.1 - 1)
    }

    /// `n` columns left.
    pub fn left_n(&self, n: usize) -> (r: Self)
        requires
            self.1 >= n,
        ensures
            r == Position(self.0, (self.1 - n) as usize),
    {
        Position(self.0, self.1 - n)
    }

    /// One column right.
    pub fn right(&self) -> (r: Self)
        requires
            self.1 < usize::MAX,
        ensures
            r == Position(self.0, (self.1 + 1) as usize),
    {
        Position(self.0, self.1 + 1)
    }

    /// `n` columns right.
    pub fn right_n(&self, n: usize) -> (r: Self)
        requires
            self.1 + n <= usize::MAX,
        ensures
            r == Position(self.0, (self.1 + n) as usize),
    {
        Position(self.0, self.1 + n)
    }

    /// The coordinate as `(row, col)`.
    pub fn to_display_string(&self) -> (r: String)
        ensures
            r@ == seq!['('] + decimal(self.0 as nat) + seq![',', ' '] + decimal(self.1 as nat)
                + seq![')'],
    {
        proof {
            reveal_strlit("(");
            reveal_strlit(", ");
            reveal_strlit(")");
        }
        let mut s = String::from_str("(");
        push_decimal(&mut s, self.0);
        s.append(", ");
        push_decimal(&mut s, self.1);
        s.append(")");
        s
    }

    /// The coordinate as `Position { row, col }`.
    pub fn to_debug_string(&self) -> (r: String)
        ensures
            r@ == "Position { "@ + decimal(self.0 as nat) + seq![',', ' '] + decimal(
                self.1 as nat,
            ) + seq![' ', '}'],
    {
        proof {
            reveal_strlit("Position { ");
            reveal_strlit(", ");
            reveal_strlit(" }");
        }
        let mut s = String::from_str("Position { ");
        push_decimal(&mut s, self.0);
        s.append(", ");
        push_decimal(&mut s, self.1);
        s.append(" }");
        s
    }
}

impl From<[usize; 2]> for Position {
    fn from(a: [usize; 2]) -> (r: Self) {
        Position(a[0], a[1])
    }
}

impl vstd::std_specs::convert::FromSpecImpl<[usize; 2]> for Position {
    open spec fn obeys_from_spec() -> bool {
        true
    }

    open spec fn from_spec(a: [usize; 2]) -> Self {
        Position(a[0], a[1])
    }
}

impl From<Position> for [usize; 2] {
    fn from(p: Position) -> (r: Self) {
        [p.0, p.1]
    }
}

impl vstd::std_specs::convert::FromSpecImpl<Position> for [usize; 2] {
    open spec fn obeys_from_spec() -> bool {
        true
    }

    open spec fn from_spec(p: Position) -> Self {
        [p.0, p.1]
    }
}

} // verus!
