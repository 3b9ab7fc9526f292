//! The text notation of patterns and how it is read.
//!
//! A pattern is written row by row. Each row stands between square
//! brackets (the pattern keeps its orientation) or round brackets (the
//! pattern may be turned), and every row has as many slots as the first
//! one. A dot is an empty slot; any other character must denote a
//! payload. Whitespace is ignored everywhere.
//!
//! ```text
//! [123][4.6][789]      (>v)(<.)      (#.#)
//! ```

use vstd::prelude::*;
use crate::cell::{is_whitespace, InbentoCell, AREA, SIZE};
use crate::figure::{Figure, FigureView};
use crate::grammar::{parse_figure_wf, parse_reads_only_rows};

verus! {

/// Why a text is not a pattern.
#[derive(Clone, Copy, Debug, PartialEq, Eq, Hash, Structural)]
pub enum ParserError {
    /// Nothing but whitespace.
    Empty,
    /// The text does not start with `[` or `(`.
    NotWrapped,
    /// No `]` or `)` follows the first character.
    NoClosingDelimiter,
    /// The first row has more slots than the frame has columns.
    TooWide,
    /// Square and round brackets are mixed.
    MixedDelimiters,
    /// A row starts although the frame is full.
    TooManyRows,
    /// A row starts inside a row.
    UnexpectedRowStart,
    /// A row ends outside any row.
    UnexpectedRowEnd,
    /// A slot stands outside any row.
    OutsideRow,
    /// A character denotes no payload.
    UnknownCharacter,
    /// A row has more slots than the first one.
    TooManyElements,
    /// A row has fewer slots than the first one.
    NotEnoughElements,
    /// The text ends inside a row.
    UnterminatedRow,
    /// A copy mask without exactly one copy mark.
    CopyCount,
    /// A swap mask without exactly two marks.
    SwapCount,
}

impl ParserError {
    /// The wording of the error.
    pub open spec fn text(self) -> Seq<char> {
        match self {
            ParserError::Empty => "figure must not be empty"@,
            ParserError::NotWrapped => "figure must be wrapped in `[` or `(`"@,
            ParserError::NoClosingDelimiter => "figure must have matching closing delimiter (`[ ]`, `( )`)"@,
            ParserError::TooWide => "figure is too wide"@,
            ParserError::MixedDelimiters => "figure must be wrapped entirely in `[ ]` or `( )`"@,
            ParserError::TooManyRows => "too many rows"@,
            ParserError::UnexpectedRowStart => "unexpected start of row"@,
            ParserError::UnexpectedRowEnd => "unexpected end of row"@,
            ParserError::OutsideRow => "unexpected character outside of row"@,
            ParserError::UnknownCharacter => "could not parse character"@,
            ParserError::TooManyElements => "too many elements in row"@,
            ParserError::NotEnoughElements => "not enough elements in row"@,
            ParserError::UnterminatedRow => "unterminated row"@,
            ParserError::CopyCount => "expected exactly one copy cell"@,
            ParserError::SwapCount => "expected exactly two swap cells"@,
        }
    }

    /// Returns the wording of the error.
    pub fn message(&self) -> (r: &'static str)
        ensures
            r@ == self.text(),
    {
        match self {
            ParserError::Empty => "figure must not be empty",
            ParserError::NotWrapped => "figure must be wrapped in `[` or `(`",
            ParserError::NoClosingDelimiter => "figure must have matching closing delimiter (`[ ]`, `( )`)",
            ParserError::TooWide => "figure is too wide",
            ParserError::MixedDelimiters => "figure must be wrapped entirely in `[ ]` or `( )`",
            ParserError::TooManyRows => "too many rows",
            ParserError::UnexpectedRowStart => "unexpected start of row",
            ParserError::UnexpectedRowEnd => "unexpected end of row",
            ParserError::OutsideRow => "unexpected character outside of row",
            ParserError::UnknownCharacter => "could not parse character",
            ParserError::TooManyElements => "too many elements in row",
            ParserError::NotEnoughElements => "not enough elements in row",
            ParserError::UnterminatedRow => "unterminated row",
            ParserError::CopyCount => "expected exactly one copy cell",
            ParserError::SwapCount => "expected exactly two swap cells",
        }
    }
}

/// `s` without its whitespace.
pub open spec fn stripped(s: Seq<char>) -> Seq<char> {
    s.filter(|c: char| !is_whitespace(c))
}

/// Whether `c` opens a row.
pub open spec fn is_opener(c: char) -> bool {
    c == '[' || c == '('
}

/// Whether `c` closes a row.
pub open spec fn is_closer(c: char) -> bool {
    c == ']' || c == ')'
}

/// Position of the first closing bracket of `t` at or after `from`, or
/// the length of `t` if there is none.
pub open spec fn first_closer(t: Seq<char>, from: int) -> int
    decreases t.len() - from,
{
    if from >= t.len() {
        t.len() as int
    } else if is_closer(t[from]) {
        from
    } else {
        first_closer(t, from + 1)
    }
}

/// What has been read of a pattern: the slots filled so far, the number
/// of rows started, the number of slots read in the last row, and
/// whether that row is still open.
pub struct Scan<T> {
    pub cells: Seq<Option<T>>,
    pub rows: int,
    pub col: int,
    pub open: bool,
}

impl<T: InbentoCell> Scan<T> {
    /// Nothing read yet.
    pub open spec fn start() -> Self {
        Scan { cells: Seq::new(AREA as nat, |i: int| None), rows: 0, col: 0, open: false }
    }

    /// Index of the slot that the next payload goes to.
    pub open spec fn cursor(self) -> int {
        if self.open {
            (self.rows - 1) * SIZE + self.col
        } else {
            self.rows * SIZE
        }
    }

    /// Reads one character of a pattern whose rows are `width` wide.
    pub open spec fn step(self, c: char, rotatable: bool, width: int) -> Result<Self, ParserError> {
        if is_opener(c) {
            if self.cursor() >= AREA {
                Err(ParserError::TooManyRows)
            } else if (c == '(') != rotatable {
                Err(ParserError::MixedDelimiters)
            } else if self.open {
                Err(ParserError::UnexpectedRowStart)
            } else {
                Ok(Scan { rows: self.rows + 1, col: 0, open: true, ..self })
            }
        } else if is_closer(c) {
            if (c == ')') != rotatable {
                Err(ParserError::MixedDelimiters)
            } else if !self.open {
                Err(ParserError::UnexpectedRowEnd)
            } else if self.col < width {
                Err(ParserError::NotEnoughElements)
            } else {
                Ok(Scan { open: false, ..self })
            }
        } else if !self.open {
            Err(ParserError::OutsideRow)
        } else if c == '.' {
            if self.col >= width {
                Err(ParserError::TooManyElements)
            } else {
                Ok(Scan { col: self.col + 1, ..self })
            }
        } else {
            match T::parsed(c) {
                None => Err(ParserError::UnknownCharacter),
                Some(v) => if self.col >= width {
                    Err(ParserError::TooManyElements)
                } else {
                    Ok(
                        Scan {
                            cells: self.cells.update(self.cursor(), Some(v)),
                            col: self.col + 1,
                            ..self
                        },
                    )
                },
            }
        }
    }

    /// Reads `t` from position `i` on, stopping at the first error.
    pub open spec fn run(self, t: Seq<char>, i: int, rotatable: bool, width: int) -> Result<
        Self,
        ParserError,
    >
        decreases t.len() - i,
    {
        if i >= t.len() {
            Ok(self)
        } else {
            match self.step(t[i], rotatable, width) {
                Err(e) => Err(e),
                Ok(next) => next.run(t, i + 1, rotatable, width),
            }
        }
    }
}

/// The pattern that the whitespace-free text `t` denotes, or the first
/// reason why it denotes none.
///
/// The first character decides whether the pattern may be turned, and
/// the position of the first closing bracket decides its width. The text
/// is then read from left to right.
pub open spec fn parse_figure<T: InbentoCell>(t: Seq<char>) -> Result<FigureView<T>, ParserError> {
    if t.len() == 0 {
        Err(ParserError::Empty)
    } else if !is_opener(t[0]) {
        Err(ParserError::NotWrapped)
    } else if first_closer(t, 1) == t.len() {
        Err(ParserError::NoClosingDelimiter)
    } else if first_closer(t, 1) - 1 > SIZE {
        Err(ParserError::TooWide)
    } else {
        match Scan::<T>::start().run(t, 0, t[0] == '(', first_closer(t, 1) - 1) {
            Err(e) => Err(e),
            Ok(end) => if end.open {
                Err(ParserError::UnterminatedRow)
            } else {
                Ok(
                    FigureView {
                        cells: end.cells,
                        rotatable: t[0] == '(',
                        width: first_closer(t, 1) - 1,
                        height: end.rows,
                    },
                )
            },
        }
    }
}

/// The bracket that opens a row.
pub open spec fn opener(rotatable: bool) -> char {
    if rotatable {
        '('
    } else {
        '['
    }
}

/// The bracket that closes a row.
pub open spec fn closer(rotatable: bool) -> char {
    if rotatable {
        ')'
    } else {
        ']'
    }
}

/// The character that denotes a slot.
pub open spec fn slot_glyph<T: InbentoCell>(slot: Option<T>) -> char {
    match slot {
        Some(v) => v.glyph(),
        None => '.',
    }
}

impl<T: InbentoCell> FigureView<T> {
    /// The notation of row `y`: its slots between brackets.
    pub open spec fn row_text(self, y: int) -> Seq<char> {
        seq![opener(self.rotatable)] + Seq::new(
            self.width as nat,
            |x: int| slot_glyph(self.at(x, y)),
        ) + seq![closer(self.rotatable)]
    }

    /// The notation of the first `n` rows, each followed by a line
    /// feed.
    pub open spec fn rows_text(self, n: int) -> Seq<char>
        decreases n,
    {
        if n <= 0 {
            Seq::empty()
        } else {
            self.rows_text(n - 1) + self.row_text(n - 1) + seq!['\n']
        }
    }

    /// The notation of the first `n` rows with nothing between them.
    pub open spec fn rows_compact(self, n: int) -> Seq<char>
        decreases n,
    {
        if n <= 0 {
            Seq::empty()
        } else {
            self.rows_compact(n - 1) + self.row_text(n - 1)
        }
    }

    /// The notation of the pattern without whitespace: its rows, one
    /// after the other.
    pub open spec fn compact(self) -> Seq<char> {
        self.rows_compact(self.height)
    }

    /// The notation of the pattern: its only row, or a line feed and
    /// then one line for each row.
    pub open spec fn text(self) -> Seq<char> {
        if self.height == 1 {
            self.row_text(0)
        } else {
            seq!['\n'] + self.rows_text(self.height)
        }
    }
}

/// `String::push` of the standard library appends the character to the
/// end of the string.
pub assume_specification[ String::push ](s: &mut String, ch: char)
    ensures
        final(s)@ == old(s)@.push(ch),
;

/// Dropping whitespace from a text one character longer.
proof fn stripped_step(s: Seq<char>, i: int)
    requires
        0 <= i < s.len(),
    ensures
        stripped(s.take(i + 1)) == (if is_whitespace(s[i]) {
            stripped(s.take(i))
        } else {
            stripped(s.take(i)).push(s[i])
        }),
{
    reveal(Seq::filter);
    assert(s.take(i + 1).drop_last() =~= s.take(i));
}

/// Returns whether `c` is whitespace.
pub fn whitespace(c: char) -> (r: bool)
    ensures
        r == is_whitespace(c),
{
    let n: u32 = c as u32;
    (0x09 <= n && n <= 0x0D) || n == 0x20 || n == 0x85 || n == 0xA0 || n == 0x1680 || (0x2000 <= n
        && n <= 0x200A) || n == 0x2028 || n == 0x2029 || n == 0x202F || n == 0x205F || n == 0x3000
}

/// Returns the characters of `s` that are not whitespace.
pub fn strip_whitespace(s: &str) -> (r: Vec<char>)
    ensures
        r@ == stripped(s@),
{
    let mut out: Vec<char> = Vec::new();
    proof {
        reveal(Seq::filter);
        assert(s@.take(0) =~= Seq::<char>::empty());
    }
    for c in it: s.chars()
        invariant
            it.seq() == s@,
            out@ == stripped(s@.take(it.index() as int)),
    {
        proof {
            stripped_step(s@, it.index() as int);
        }
        if !whitespace(c) {
            out.push(c);
        }
    }
    assert(s@.take(s@.len() as int) =~= s@);
    out
}

impl<T: InbentoCell> Figure<T> {
    /// Reads a pattern from its notation.
    ///
    /// Whitespace is dropped first. What remains is a pattern if it is
    /// one to three rows, each the opening bracket of the first row, as
    /// many slots as the first row has (three at most), and the matching
    /// closing bracket. Any other text is refused with the first fault
    /// found when reading from left to right.
    pub fn from_str(string: &str) -> (r: Result<Self, ParserError>)
        ensures
            r matches Ok(f) ==> parse_figure::<T>(stripped(string@)) == Ok::<
                FigureView<T>,
                ParserError,
            >(f@),
            r matches Err(e) ==> parse_figure::<T>(stripped(string@)) == Err::<
                FigureView<T>,
                ParserError,
            >(e),
            r matches Ok(f) ==> f@.contained() && 1 <= f@.height && stripped(string@)
                == f@.compact(),
    {
        proof {
            parse_figure_wf::<T>(stripped(string@));
            parse_reads_only_rows::<T>(stripped(string@));
        }
        let text = strip_whitespace(string);
        let ghost t = text@;
        if text.len() == 0 {
            return Err(ParserError::Empty);
        }
        let rotatable = if text[0] == '[' {
            false
        } else if text[0] == '(' {
            true
        } else {
            return Err(ParserError::NotWrapped);
        };
        let mut close: usize = 1;
        while close < text.len() && text[close] != ']' && text[close] != ')'
            invariant
                t == text@,
                1 <= close <= text.len(),
                first_closer(t, 1) == first_closer(t, close as int),
            decreases text.len() - close,
        {
            close += 1;
        }
        if close == text.len() {
            return Err(ParserError::NoClosingDelimiter);
        }
        let width = close - 1;
        if width > SIZE {
            return Err(ParserError::TooWide);
        }
        let mut layout: [Option<T>; AREA] = [None;AREA];
        let mut rows: usize = 0;
        let mut col: usize = 0;
        let mut open = false;
        let mut i: usize = 0;
        assert(layout@ =~= Scan::<T>::start().cells);
        while i < text.len()
            invariant
                t == text@,
                t == stripped(string@),
                t.len() > 0,
                is_opener(t[0]),
                rotatable == (t[0] == '('),
                first_closer(t, 1) == width + 1,
                width + 1 < t.len(),
                i <= text.len(),
                width <= SIZE,
                rows <= SIZE,
                col <= width,
                open ==> rows >= 1,
                forall|k: int|
                    0 <= k < AREA ==> ((#[trigger] layout@[k]) matches Some(v) ==> v.valid()),
                Scan::<T>::start().run(t, 0, rotatable, width as int) == (Scan {
                    cells: layout@,
                    rows: rows as int,
                    col: col as int,
                    open,
                }).run(t, i as int, rotatable, width as int),
            decreases text.len() - i,
        {
            let c = text[i];
            let ghost before = Scan { cells: layout@, rows: rows as int, col: col as int, open };
            if c == '[' || c == '(' {
                let cursor = if open {
                    (rows - 1) * SIZE + col
                } else {
                    rows * SIZE
                };
                if cursor >= AREA {
                    return Err(ParserError::TooManyRows);
                }
                if (c == '(') != rotatable {
                    return Err(ParserError::MixedDelimiters);
                }
                if open {
                    return Err(ParserError::UnexpectedRowStart);
                }
                rows += 1;
                col = 0;
                open = true;
            } else if c == ']' || c == ')' {
                if (c == ')') != rotatable {
                    return Err(ParserError::MixedDelimiters);
                }
                if !open {
                    return Err(ParserError::UnexpectedRowEnd);
                }
                if col < width {
                    return Err(ParserError::NotEnoughElements);
                }
                open = false;
            } else if !open {
                return Err(ParserError::OutsideRow);
            } else if c == '.' {
                if col >= width {
                    return Err(ParserError::TooManyElements);
                }
                col += 1;
            } else {
                match T::parse(c) {
                    Err(_) => {
                        return Err(ParserError::UnknownCharacter);
                    },
                    Ok(v) => {
                        if col >= width {
                            return Err(ParserError::TooManyElements);
                        }
                        proof {
                            T::parse_inverts_glyph(c, v);
                        }
                        layout[(rows - 1) * SIZE + col] = Some(v);
                        col += 1;
                    },
                }
            }
            assert(before.step(c, rotatable, width as int) == Ok::<Scan<T>, ParserError>(
                Scan { cells: layout@, rows: rows as int, col: col as int, open },
            ));
            i += 1;
        }
        if open {
            return Err(ParserError::UnterminatedRow);
        }
        Ok(Figure::from_parts(layout, rotatable, width, rows))
    }
}

impl<T: InbentoCell> Figure<T> {
    /// Appends the notation of row `y` to `out`.
    fn write_row(&self, out: &mut String, y: usize)
        requires
            y < SIZE,
        ensures
            final(out)@ == old(out)@ + self@.row_text(y as int),
    {
        let ghost before = out@;
        let rotatable = self.is_rotatable();
        let width = self.bounding_width();
        out.push(if rotatable {
            '('
        } else {
            '['
        });
        let mut x: usize = 0;
        while x < width
            invariant
                x <= width,
                width == self@.width,
                width <= SIZE,
                y < SIZE,
                out@ == before + seq![opener(self@.rotatable)] + Seq::new(
                    x as nat,
                    |k: int| slot_glyph(self@.at(k, y as int)),
                ),
            decreases width - x,
        {
            let ghost so_far = out@;
            let glyph = match self.slot(y * SIZE + x) {
                None => '.',
                Some(v) => v.to_char(),
            };
            out.push(glyph);
            x += 1;
            assert(out@ =~= before + seq![opener(self@.rotatable)] + Seq::new(
                x as nat,
                |k: int| slot_glyph(self@.at(k, y as int)),
            ));
        }
        out.push(if rotatable {
            ')'
        } else {
            ']'
        });
        assert(out@ =~= before + self@.row_text(y as int));
    }

    /// Returns the notation of the pattern: a single row as it is, and
    /// several rows on a line each, after an empty line.
    pub fn render(&self) -> (r: String)
        ensures
            r@ == self@.text(),
    {
        let mut out = String::new();
        let height = self.bounding_height();
        if height == 1 {
            self.write_row(&mut out, 0);
            assert(out@ =~= self@.row_text(0));
        } else {
            out.push('\n');
            let mut y: usize = 0;
            while y < height
                invariant
                    y <= height,
                    height == self@.height,
                    height <= SIZE,
                    out@ == seq!['\n'] + self@.rows_text(y as int),
                decreases height - y,
            {
                self.write_row(&mut out, y);
                out.push('\n');
                y += 1;
                assert(out@ =~= seq!['\n'] + self@.rows_text(y as int));
            }
        }
        out
    }
}

} // verus!
