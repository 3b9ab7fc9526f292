//! Cell payloads: what a single slot of a pattern can hold.

use vstd::prelude::*;

verus! {

/// Side length of the square frame every pattern lives in.
pub const SIZE: usize = 3;

/// Number of slots in the frame.
pub const AREA: usize = SIZE * SIZE;

/// Characters of the notation that never denote a payload: the row
/// delimiters and the empty-slot dot.
pub open spec fn is_structural(c: char) -> bool {
    c == '[' || c == ']' || c == '(' || c == ')' || c == '.'
}

/// Whether `c` carries the Unicode `White_Space` property.
pub open spec fn is_whitespace(c: char) -> bool {
    let n = c as u32;
    ||| 0x09 <= n <= 0x0D
    ||| n == 0x20
    ||| n == 0x85
    ||| n == 0xA0
    ||| n == 0x1680
    ||| 0x2000 <= n <= 0x200A
    ||| n == 0x2028
    ||| n == 0x2029
    ||| n == 0x202F
    ||| n == 0x205F
    ||| n == 0x3000
}

/// A value that can occupy one slot of a [`crate::Figure`].
///
/// A payload has a one-character notation and a rule for how it changes
/// when the pattern around it is turned a quarter clockwise. The spec
/// functions are the mathematical model, the executable methods compute
/// them, and the proof methods are the laws that every payload obeys
/// and that the geometry of patterns relies on.
pub trait InbentoCell: Copy + PartialEq {
    /// Whether the value is one the notation can express.
    spec fn valid(&self) -> bool;

    /// The character that denotes the value.
    spec fn glyph(&self) -> char;

    /// The value denoted by `c`, if any.
    spec fn parsed(c: char) -> Option<Self>;

    /// The value after a quarter turn clockwise.
    spec fn turned(&self) -> Self;

    /// Returns the character that denotes the value.
    fn to_char(&self) -> (c: char)
        requires
            self.valid(),
        ensures
            c == self.glyph(),
    ;

    /// Returns the value that `c` denotes, or an error if it denotes
    /// none.
    fn parse(c: char) -> (r: Result<Self, ()>)
        ensures
            r == (match Self::parsed(c) {
                Some(v) => Ok::<Self, ()>(v),
                None => Err(()),
            }),
    ;

    /// Returns the value after a quarter turn clockwise.
    fn rotate(&self) -> (r: Self)
        ensures
            r == self.turned(),
    ;

    /// Returns whether two payloads are the same value.
    fn same(&self, other: &Self) -> (r: bool)
        ensures
            r == (*self == *other),
    ;

    /// Parsing and printing are inverse to each other on valid values.
    proof fn parse_inverts_glyph(c: char, v: Self)
        ensures
            Self::parsed(c) == Some(v) <==> (v.valid() && v.glyph() == c),
    ;

    /// The notation of a payload is neither a delimiter, nor the dot,
    /// nor whitespace.
    proof fn glyph_is_plain(v: Self)
        requires
            v.valid(),
        ensures
            !is_structural(v.glyph()),
            !is_whitespace(v.glyph()),
    ;

    /// Turning keeps a value expressible.
    proof fn turned_is_valid(v: Self)
        requires
            v.valid(),
        ensures
            v.turned().valid(),
    ;

    /// Four quarter turns are a full turn.
    proof fn four_turns(v: Self)
        ensures
            v.turned().turned().turned().turned() == v,
    ;
}

/// Presence-only payload, written `#`.
#[derive(Clone, Copy, Debug, PartialEq, Eq, Hash, Structural)]
pub struct Mark;

impl InbentoCell for Mark {
    open spec fn valid(&self) -> bool {
        true
    }

    open spec fn glyph(&self) -> char {
        '#'
    }

    open spec fn parsed(c: char) -> Option<Self> {
        if c == '#' {
            Some(Mark)
        } else {
            None
        }
    }

    open spec fn turned(&self) -> Self {
        Mark
    }

    fn to_char(&self) -> (c: char) {
        '#'
    }

    fn parse(c: char) -> (r: Result<Self, ()>) {
        if c == '#' {
            Ok(Mark)
        } else {
            Err(())
        }
    }

    fn rotate(&self) -> (r: Self) {
        Mark
    }

    fn same(&self, other: &Self) -> (r: bool) {
        true
    }

    proof fn parse_inverts_glyph(c: char, v: Self) {
    }

    proof fn glyph_is_plain(v: Self) {
    }

    proof fn turned_is_valid(v: Self) {
    }

    proof fn four_turns(v: Self) {
    }
}

/// Digit payload, `0` to `9`.
impl InbentoCell for u8 {
    open spec fn valid(&self) -> bool {
        *self < 10
    }

    open spec fn glyph(&self) -> char {
        ((*self + 0x30) as u8) as char
    }

    open spec fn parsed(c: char) -> Option<Self> {
        if '0' <= c <= '9' {
            Some((c as u32 - 0x30) as u8)
        } else {
            None
        }
    }

    open spec fn turned(&self) -> Self {
        *self
    }

    fn to_char(&self) -> (c: char) {
        (*self + 0x30) as char
    }

    fn parse(c: char) -> (r: Result<Self, ()>) {
        if '0' <= c && c <= '9' {
            Ok((c as u32 - 0x30) as u8)
        } else {
            Err(())
        }
    }

    fn rotate(&self) -> (r: Self) {
        *self
    }

    fn same(&self, other: &Self) -> (r: bool) {
        *self == *other
    }

    proof fn parse_inverts_glyph(c: char, v: Self) {
    }

    proof fn glyph_is_plain(v: Self) {
    }

    proof fn turned_is_valid(v: Self) {
    }

    proof fn four_turns(v: Self) {
    }
}

/// One of the four compass directions a push can move a digit in.
#[derive(Clone, Copy, Debug, PartialEq, Eq, Hash, Structural)]
pub enum Direction {
    Down,
    Left,
    Right,
    Up,
}

/// Direction payload, written `^`, `>`, `v` and `<`.
impl InbentoCell for Direction {
    open spec fn valid(&self) -> bool {
        true
    }

    open spec fn glyph(&self) -> char {
        match *self {
            Direction::Up => '^',
            Direction::Right => '>',
            Direction::Down => 'v',
            Direction::Left => '<',
        }
    }

    open spec fn parsed(c: char) -> Option<Self> {
        if c == '^' {
            Some(Direction::Up)
        } else if c == '>' {
            Some(Direction::Right)
        } else if c == 'v' {
            Some(Direction::Down)
        } else if c == '<' {
            Some(Direction::Left)
        } else {
            None
        }
    }

    open spec fn turned(&self) -> Self {
        match *self {
            Direction::Up => Direction::Right,
            Direction::Right => Direction::Down,
            Direction::Down => Direction::Left,
            Direction::Left => Direction::Up,
        }
    }

    fn to_char(&self) -> (c: char) {
        match *self {
            Direction::Up => '^',
            Direction::Right => '>',
            Direction::Down => 'v',
            Direction::Left => '<',
        }
    }

    fn parse(c: char) -> (r: Result<Self, ()>) {
        match c {
            '^' => Ok(Direction::Up),
            '>' => Ok(Direction::Right),
            'v' => Ok(Direction::Down),
            '<' => Ok(Direction::Left),
            _ => Err(()),
        }
    }

    fn rotate(&self) -> (r: Self) {
        match *self {
            Direction::Up => Direction::Right,
            Direction::Right => Direction::Down,
            Direction::Down => Direction::Left,
            Direction::Left => Direction::Up,
        }
    }

    fn same(&self, other: &Self) -> (r: bool) {
        *self == *other
    }

    proof fn parse_inverts_glyph(c: char, v: Self) {
    }

    proof fn glyph_is_plain(v: Self) {
    }

    proof fn turned_is_valid(v: Self) {
    }

    proof fn four_turns(v: Self) {
    }
}

} // verus!
