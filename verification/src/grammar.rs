//! Laws of the notation: which texts denote patterns, and that the
//! notation of a pattern denotes that pattern.

use vstd::prelude::*;
use crate::cell::{is_structural, is_whitespace, InbentoCell, AREA, SIZE};
use crate::figure::FigureView;
use crate::notation::{
    closer, first_closer, is_closer, is_opener, opener, parse_figure, slot_glyph, stripped,
    ParserError, Scan,
};
use crate::symmetry::slot_coordinates;

verus! {

impl<T: InbentoCell> Scan<T> {
    /// What holds while a pattern of the given width is read: at most
    /// three rows, no row longer than the width, and payloads only where
    /// the rows read so far reach.
    pub open spec fn consistent(self, width: int) -> bool {
        &&& self.cells.len() == AREA
        &&& 0 <= self.rows <= SIZE
        &&& 0 <= self.col <= width <= SIZE
        &&& self.open ==> self.rows >= 1
        &&& forall|k: int|
            0 <= k < AREA ==> ((#[trigger] self.cells[k]) matches Some(v) ==> v.valid() && k % (
            SIZE as int) < width && k / (SIZE as int) < self.rows && (self.open && k / (
            SIZE as int) == self.rows - 1 ==> k % (SIZE as int) < self.col))
    }

    /// Reading a character keeps the scan consistent and never takes a
    /// row back.
    pub proof fn step_consistent(self, c: char, rotatable: bool, width: int)
        requires
            self.consistent(width),
        ensures
            self.step(c, rotatable, width) matches Ok(next) ==> next.consistent(width)
                && next.rows >= self.rows,
    {
        if let Ok(next) = self.step(c, rotatable, width) {
            if !is_opener(c) && !is_closer(c) && c != '.' {
                let v = T::parsed(c)->0;
                T::parse_inverts_glyph(c, v);
                slot_coordinates(self.col, self.rows - 1);
            }
        }
    }

    /// Reading the rest of a text keeps the scan consistent and never
    /// takes a row back.
    pub proof fn run_consistent(self, t: Seq<char>, i: int, rotatable: bool, width: int)
        requires
            self.consistent(width),
            0 <= i,
        ensures
            self.run(t, i, rotatable, width) matches Ok(end) ==> end.consistent(width) && end.rows
                >= self.rows,
        decreases t.len() - i,
    {
        if i < t.len() {
            self.step_consistent(t[i], rotatable, width);
            if let Ok(next) = self.step(t[i], rotatable, width) {
                next.run_consistent(t, i + 1, rotatable, width);
            }
        }
    }
}

/// A text that is read as a pattern gives one that is well formed, lies
/// inside its rectangle and has at least one row.
pub proof fn parse_figure_wf<T: InbentoCell>(t: Seq<char>)
    ensures
        parse_figure::<T>(t) matches Ok(v) ==> v.wf() && v.contained() && 1 <= v.height,
{
    if let Ok(v) = parse_figure::<T>(t) {
        let width = first_closer(t, 1) - 1;
        let rotatable = t[0] == '(';
        let start = Scan::<T>::start();
        first_closer_bounds(t, 1);
        assert(start.consistent(width));
        let first = start.step(t[0], rotatable, width);
        assert(first is Ok);
        start.step_consistent(t[0], rotatable, width);
        first->Ok_0.run_consistent(t, 1, rotatable, width);
    }
}

/// The first closing bracket lies between `from` and the end.
pub proof fn first_closer_bounds(t: Seq<char>, from: int)
    requires
        0 <= from <= t.len(),
    ensures
        from <= first_closer(t, from) <= t.len(),
        first_closer(t, from) < t.len() ==> is_closer(t[first_closer(t, from)]),
        forall|k: int| from <= k < first_closer(t, from) ==> !is_closer(#[trigger] t[k]),
    decreases t.len() - from,
{
    if from < t.len() && !is_closer(t[from]) {
        first_closer_bounds(t, from + 1);
    }
}

/// The slots of `v` as far as they have been read when `col` slots of
/// row `row` are read: the rows above, and the first `col` slots of that
/// row.
pub open spec fn cells_read<T: InbentoCell>(v: FigureView<T>, row: int, col: int) -> Seq<
    Option<T>,
> {
    Seq::new(
        AREA as nat,
        |i: int|
            if i / (SIZE as int) < row || (i / (SIZE as int) == row && i % (SIZE as int) < col) {
                v.cells[i]
            } else {
                None
            },
    )
}

/// The scan between two rows, `row` rows having been read.
pub open spec fn between_rows<T: InbentoCell>(v: FigureView<T>, row: int) -> Scan<T> {
    Scan {
        cells: cells_read(v, row, 0),
        rows: row,
        col: if row == 0 {
            0
        } else {
            v.width
        },
        open: false,
    }
}

/// The scan inside row `row`, `col` of its slots having been read.
pub open spec fn inside_row<T: InbentoCell>(v: FigureView<T>, row: int, col: int) -> Scan<T> {
    Scan { cells: cells_read(v, row, col), rows: row + 1, col, open: true }
}

/// Filtering keeps a sequence whose elements all pass.
proof fn filter_keeps_all<A>(s: Seq<A>, pred: spec_fn(A) -> bool)
    requires
        forall|i: int| 0 <= i < s.len() ==> pred(#[trigger] s[i]),
    ensures
        s.filter(pred) == s,
    decreases s.len(),
{
    reveal(Seq::filter);
    if s.len() > 0 {
        filter_keeps_all(s.drop_last(), pred);
        assert(s.drop_last().push(s.last()) =~= s);
    }
}

/// The notation of a row holds no whitespace.
proof fn row_text_is_plain<T: InbentoCell>(v: FigureView<T>, y: int)
    requires
        v.wf(),
        0 <= y < SIZE,
    ensures
        stripped(v.row_text(y)) == v.row_text(y),
        v.row_text(y).len() == v.width + 2,
{
    let row = v.row_text(y);
    assert forall|i: int| 0 <= i < row.len() implies !is_whitespace(#[trigger] row[i]) by {
        if 0 < i < row.len() - 1 {
            let x = i - 1;
            assert(row[i] == slot_glyph(v.at(x, y)));
            if let Some(value) = v.at(x, y) {
                assert(v.cells[y * SIZE + x] == Some(value));
                T::glyph_is_plain(value);
            }
        }
    }
    filter_keeps_all(row, |c: char| !is_whitespace(c));
}

/// Filtering a line feed for what is not whitespace leaves nothing.
proof fn feed_is_stripped()
    ensures
        stripped(seq!['\n']) == Seq::<char>::empty(),
{
    reveal_with_fuel(Seq::filter, 2);
    let feed = seq!['\n'];
    assert(feed.drop_last() =~= Seq::<char>::empty());
    assert(feed.last() == '\n');
}

/// Dropping the whitespace from the lines of the first `n` rows leaves
/// the rows.
proof fn rows_text_stripped<T: InbentoCell>(v: FigureView<T>, n: int)
    requires
        v.wf(),
        0 <= n <= SIZE,
    ensures
        stripped(v.rows_text(n)) == v.rows_compact(n),
    decreases n,
{
    let keep = |c: char| !is_whitespace(c);
    if n > 0 {
        rows_text_stripped(v, n - 1);
        row_text_is_plain(v, n - 1);
        feed_is_stripped();
        let feed = seq!['\n'];
        Seq::filter_distributes_over_add(v.rows_text(n - 1), v.row_text(n - 1), keep);
        Seq::filter_distributes_over_add(v.rows_text(n - 1) + v.row_text(n - 1), feed, keep);
        assert(v.rows_compact(n) + Seq::<char>::empty() =~= v.rows_compact(n));
    } else {
        assert(v.rows_text(n) =~= Seq::<char>::empty());
        filter_keeps_all(v.rows_text(n), keep);
    }
}

/// Dropping the whitespace from the notation of a pattern leaves its
/// rows.
pub proof fn text_stripped<T: InbentoCell>(v: FigureView<T>)
    requires
        v.wf(),
    ensures
        stripped(v.text()) == v.compact(),
{
    let keep = |c: char| !is_whitespace(c);
    if v.height == 1 {
        row_text_is_plain(v, 0);
        assert(v.rows_compact(0) =~= Seq::<char>::empty());
        assert(v.compact() =~= v.row_text(0));
    } else {
        rows_text_stripped(v, v.height);
        feed_is_stripped();
        let feed = seq!['\n'];
        Seq::filter_distributes_over_add(feed, v.rows_text(v.height), keep);
        assert(Seq::<char>::empty() + v.rows_compact(v.height) =~= v.rows_compact(v.height));
    }
}

impl<T: InbentoCell> FigureView<T> {
    /// Where row `n` starts in the notation without whitespace.
    pub open spec fn row_start(self, n: int) -> int {
        self.rows_compact(n).len() as int
    }
}

/// Each row takes its slots and two brackets.
proof fn row_start_step<T: InbentoCell>(v: FigureView<T>, n: int)
    requires
        v.wf(),
        0 <= n < SIZE,
    ensures
        v.row_start(n + 1) == v.row_start(n) + v.width + 2,
        v.row_start(0) == 0,
{
    row_text_is_plain(v, n);
    assert(v.rows_compact(n + 1) == v.rows_compact(n) + v.row_text(n));
    assert(v.rows_compact(0) =~= Seq::<char>::empty());
}

/// The notation of the first rows is the start of the notation of all
/// rows.
proof fn rows_compact_prefix<T: InbentoCell>(v: FigureView<T>, n: int, k: int)
    requires
        v.wf(),
        0 <= n <= v.height,
        0 <= k < v.row_start(n),
    ensures
        k < v.compact().len(),
        v.compact()[k] == v.rows_compact(n)[k],
    decreases v.height - n,
{
    if n < v.height {
        row_start_step(v, n);
        rows_compact_prefix(v, n + 1, k);
    }
}

/// The character `k` places into row `y` of the notation.
proof fn compact_at<T: InbentoCell>(v: FigureView<T>, y: int, k: int)
    requires
        v.wf(),
        0 <= y < v.height,
        0 <= k < v.width + 2,
    ensures
        0 <= v.row_start(y) + k < v.compact().len(),
        v.compact()[v.row_start(y) + k] == v.row_text(y)[k],
{
    row_start_step(v, y);
    rows_compact_prefix(v, y + 1, v.row_start(y) + k);
}

/// Reading the rest of row `y`, from its slot `col` on, ends between
/// the rows.
proof fn reads_row_rest<T: InbentoCell>(v: FigureView<T>, y: int, col: int)
    requires
        v.wf(),
        v.contained(),
        0 <= y < v.height,
        0 <= col <= v.width,
    ensures
        inside_row(v, y, col).run(v.compact(), v.row_start(y) + 1 + col, v.rotatable, v.width)
            == between_rows(v, y + 1).run(v.compact(), v.row_start(y + 1), v.rotatable, v.width),
    decreases v.width - col,
{
    let t = v.compact();
    let at = v.row_start(y) + 1 + col;
    let state = inside_row(v, y, col);
    compact_at(v, y, col + 1);
    row_start_step(v, y);
    if col == v.width {
        assert(t[at] == closer(v.rotatable));
        let next = state.step(t[at], v.rotatable, v.width);
        assert(next == Ok::<Scan<T>, ParserError>(Scan { open: false, ..state }));
        assert(cells_read(v, y, col) =~= cells_read(v, y + 1, 0)) by {
            assert forall|i: int| 0 <= i < AREA implies cells_read(v, y, col)[i] == cells_read(
                v,
                y + 1,
                0,
            )[i] by {
                if i / (SIZE as int) == y && i % (SIZE as int) >= col {
                    assert(v.cells[i] is None);
                }
            }
        }
        assert(next->Ok_0 == between_rows(v, y + 1));
    } else {
        let c = t[at];
        assert(c == slot_glyph(v.at(col, y)));
        let slot = y * SIZE + col;
        slot_coordinates(col, y);
        assert(state.cursor() == slot);
        match v.at(col, y) {
            None => {
                assert(c == '.');
            },
            Some(value) => {
                assert(v.cells[slot] == Some(value));
                T::glyph_is_plain(value);
                T::parse_inverts_glyph(c, value);
                assert(!is_structural(c));
            },
        }
        let next = state.step(c, v.rotatable, v.width);
        assert(next is Ok);
        assert(next->Ok_0.cells =~= cells_read(v, y, col + 1)) by {
            assert forall|i: int| 0 <= i < AREA implies next->Ok_0.cells[i] == cells_read(
                v,
                y,
                col + 1,
            )[i] by {
                if i != slot && i / (SIZE as int) == y && i % (SIZE as int) == col {
                    assert(i == (i / (SIZE as int)) * SIZE + i % (SIZE as int));
                }
            }
        }
        assert(next->Ok_0 == inside_row(v, y, col + 1));
        reads_row_rest(v, y, col + 1);
    }
}

/// Reading the rows from row `y` on ends after the last row.
proof fn reads_rows<T: InbentoCell>(v: FigureView<T>, y: int)
    requires
        v.wf(),
        v.contained(),
        0 <= y <= v.height,
    ensures
        between_rows(v, y).run(v.compact(), v.row_start(y), v.rotatable, v.width) == Ok::<
            Scan<T>,
            ParserError,
        >(between_rows(v, v.height)),
    decreases v.height - y,
{
    let t = v.compact();
    if y < v.height {
        compact_at(v, y, 0);
        let state = between_rows(v, y);
        let at = v.row_start(y);
        assert(t[at] == opener(v.rotatable));
        let next = state.step(t[at], v.rotatable, v.width);
        assert(next == Ok::<Scan<T>, ParserError>(inside_row(v, y, 0)));
        reads_row_rest(v, y, 0);
        reads_rows(v, y + 1);
    }
}

/// No closing bracket stands before the end of the first row.
proof fn first_row_closes<T: InbentoCell>(v: FigureView<T>, from: int)
    requires
        v.wf(),
        1 <= v.height,
        1 <= from <= v.width + 1,
    ensures
        first_closer(v.compact(), from) == v.width + 1,
        v.width + 1 < v.compact().len(),
    decreases v.width + 1 - from,
{
    row_start_step(v, 0);
    compact_at(v, 0, from);
    compact_at(v, 0, v.width + 1);
    if from <= v.width {
        let c = v.compact()[from];
        assert(c == slot_glyph(v.at(from - 1, 0)));
        if let Some(value) = v.at(from - 1, 0) {
            assert(v.cells[from - 1] == Some(value));
            T::glyph_is_plain(value);
        }
        assert(!is_closer(c));
        first_row_closes(v, from + 1);
    }
}

/// Reading the rows of a pattern gives the pattern: a pattern that is
/// well formed, lies inside its rectangle and has at least one row is
/// what the text of its rows denotes, whatever its width and height.
pub proof fn parse_reads_rows<T: InbentoCell>(v: FigureView<T>)
    requires
        v.wf(),
        v.contained(),
        1 <= v.height,
    ensures
        parse_figure::<T>(v.compact()) == Ok::<FigureView<T>, ParserError>(v),
{
    let t = v.compact();
    row_start_step(v, 0);
    compact_at(v, 0, 0);
    assert(t[0] == opener(v.rotatable));
    first_row_closes(v, 1);
    reads_rows(v, 0);
    assert(between_rows(v, 0).cells =~= Scan::<T>::start().cells);
    assert(between_rows(v, v.height).cells =~= v.cells) by {
        assert forall|i: int| 0 <= i < AREA implies cells_read(v, v.height, 0)[i]
            == v.cells[i] by {
            if i / (SIZE as int) >= v.height {
                assert(v.cells[i] is None);
            }
        }
    }
}

/// Reading the notation of a pattern gives the pattern back.
pub proof fn parse_inverts_text<T: InbentoCell>(v: FigureView<T>)
    requires
        v.wf(),
        v.contained(),
        1 <= v.height,
    ensures
        parse_figure::<T>(stripped(v.text())) == Ok::<FigureView<T>, ParserError>(v),
{
    text_stripped(v);
    parse_reads_rows(v);
}

impl<T: InbentoCell> Scan<T> {
    /// The pattern read so far, for a text whose rows are `width` wide.
    pub open spec fn pattern(self, rotatable: bool, width: int) -> FigureView<T> {
        FigureView { cells: self.cells, rotatable, width, height: self.rows }
    }

    /// The text that leads to this scan: the rows that are closed, and
    /// what has been read of the open row.
    pub open spec fn written(self, rotatable: bool, width: int) -> Seq<char> {
        let pattern = self.pattern(rotatable, width);
        if self.open {
            pattern.rows_compact(self.rows - 1) + seq![opener(rotatable)] + Seq::new(
                self.col as nat,
                |x: int| slot_glyph(pattern.at(x, self.rows - 1)),
            )
        } else {
            pattern.rows_compact(self.rows)
        }
    }
}

/// The notation of the first rows depends on the slots of these rows,
/// the width and the brackets only.
proof fn rows_compact_frame<T: InbentoCell>(a: FigureView<T>, b: FigureView<T>, n: int)
    requires
        a.rotatable == b.rotatable,
        a.width == b.width,
        0 <= n <= SIZE,
        a.cells.len() == AREA,
        b.cells.len() == AREA,
        forall|i: int| 0 <= i < n * SIZE ==> a.cells[i] == b.cells[i],
    ensures
        a.rows_compact(n) == b.rows_compact(n),
    decreases n,
{
    if n > 0 {
        rows_compact_frame(a, b, n - 1);
        assert(a.row_text(n - 1) =~= b.row_text(n - 1)) by {
            assert forall|x: int| 0 <= x < a.width implies #[trigger] a.at(x, n - 1) == b.at(
                x,
                n - 1,
            ) by {
                if 0 <= x < SIZE {
                    assert(a.cells[(n - 1) * SIZE + x] == b.cells[(n - 1) * SIZE + x]);
                }
            }
        }
    }
}

/// Each character that is read is the next character of the text that
/// leads to the scan.
proof fn step_writes<T: InbentoCell>(state: Scan<T>, c: char, rotatable: bool, width: int)
    requires
        state.consistent(width),
    ensures
        state.step(c, rotatable, width) matches Ok(next) ==> next.written(rotatable, width)
            == state.written(rotatable, width).push(c),
{
    if let Ok(next) = state.step(c, rotatable, width) {
        let before = state.pattern(rotatable, width);
        let after = next.pattern(rotatable, width);
        let row = state.rows - 1;
        if is_opener(c) {
            rows_compact_frame(before, after, state.rows);
            assert(next.written(rotatable, width) =~= state.written(rotatable, width).push(c));
        } else if is_closer(c) {
            rows_compact_frame(before, after, row);
            assert(after.row_text(row) =~= seq![opener(rotatable)] + Seq::new(
                state.col as nat,
                |x: int| slot_glyph(before.at(x, row)),
            ) + seq![c]);
            assert(next.written(rotatable, width) =~= state.written(rotatable, width).push(c));
        } else {
            let slot = row * SIZE + state.col;
            slot_coordinates(state.col, row);
            assert(state.cells[slot] is None);
            if c != '.' {
                let value = T::parsed(c)->0;
                T::parse_inverts_glyph(c, value);
            }
            assert(slot_glyph(after.at(state.col, row)) == c);
            rows_compact_frame(before, after, row);
            assert forall|x: int| 0 <= x < state.col implies #[trigger] after.at(x, row)
                == before.at(x, row) by {
                slot_coordinates(x, row);
            }
            assert(next.written(rotatable, width) =~= state.written(rotatable, width).push(c));
        }
    }
}

/// The text that is read from position `i` on is what the text that
/// leads to the last scan has more than the text that leads to the
/// first.
proof fn run_writes<T: InbentoCell>(
    state: Scan<T>,
    t: Seq<char>,
    i: int,
    rotatable: bool,
    width: int,
)
    requires
        state.consistent(width),
        0 <= i <= t.len(),
    ensures
        state.run(t, i, rotatable, width) matches Ok(end) ==> end.written(rotatable, width)
            == state.written(rotatable, width) + t.subrange(i, t.len() as int),
    decreases t.len() - i,
{
    if i < t.len() {
        if let Ok(next) = state.step(t[i], rotatable, width) {
            state.step_consistent(t[i], rotatable, width);
            step_writes(state, t[i], rotatable, width);
            run_writes(next, t, i + 1, rotatable, width);
            assert(seq![t[i]] + t.subrange(i + 1, t.len() as int) =~= t.subrange(
                i,
                t.len() as int,
            ));
            if let Ok(end) = next.run(t, i + 1, rotatable, width) {
                assert(end.written(rotatable, width) =~= state.written(rotatable, width)
                    + t.subrange(i, t.len() as int));
            }
        }
    } else {
        assert(t.subrange(i, t.len() as int) =~= Seq::<char>::empty());
        assert(state.written(rotatable, width) + Seq::<char>::empty() =~= state.written(
            rotatable,
            width,
        ));
    }
}

/// A text that denotes a pattern is the text of the rows of that
/// pattern.
pub proof fn parse_reads_only_rows<T: InbentoCell>(t: Seq<char>)
    ensures
        parse_figure::<T>(t) matches Ok(v) ==> t == v.compact(),
{
    if let Ok(v) = parse_figure::<T>(t) {
        let width = first_closer(t, 1) - 1;
        let rotatable = t[0] == '(';
        let start = Scan::<T>::start();
        first_closer_bounds(t, 1);
        assert(start.consistent(width));
        run_writes(start, t, 0, rotatable, width);
        let end = start.run(t, 0, rotatable, width)->Ok_0;
        assert(start.pattern(rotatable, width).rows_compact(0) =~= Seq::<char>::empty());
        assert(t.subrange(0, t.len() as int) =~= t);
        assert(Seq::<char>::empty() + t =~= t);
        assert(end.pattern(rotatable, width) == v);
    }
}

/// The texts that denote patterns are the texts of the rows of
/// patterns: `t` denotes `v` exactly if `v` is well formed, lies inside
/// its rectangle, has at least one row, and `t` consists of the rows of
/// `v`, each its slots between brackets.
pub proof fn parse_accepts_rows<T: InbentoCell>(t: Seq<char>, v: FigureView<T>)
    ensures
        parse_figure::<T>(t) == Ok::<FigureView<T>, ParserError>(v) <==> (v.wf() && v.contained()
            && 1 <= v.height && t == v.compact()),
{
    parse_figure_wf::<T>(t);
    parse_reads_only_rows::<T>(t);
    if v.wf() && v.contained() && 1 <= v.height {
        parse_reads_rows(v);
    }
}

} // verus!
