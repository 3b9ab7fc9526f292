//! The board and the five ways a tool changes it.

use vstd::prelude::*;
use crate::cell::{Direction, InbentoCell, Mark, AREA, SIZE};
use crate::copy_paste::{copy_at, copy_slot, copy_slot_unique, CopyPaste, CopyPasteCell};
use crate::figure::{Figure, FigureView, Piece, Push, Shape};
use crate::swap::{swap_slots, Swap};
use crate::symmetry::{move_index, slot_coordinates};

verus! {

/// The grid of digits that is being solved.
pub type Board = Figure<u8>;

/// The slot a digit at `src` reaches by one step in direction `dir`, if
/// that step stays in its row or column and in the frame.
pub open spec fn push_target(src: int, dir: Direction) -> Option<int> {
    match dir {
        Direction::Up => if src >= SIZE {
            Some(src - SIZE)
        } else {
            None
        },
        Direction::Down => if src + SIZE < AREA {
            Some(src + SIZE)
        } else {
            None
        },
        Direction::Left => if src % (SIZE as int) != 0 {
            Some(src - 1)
        } else {
            None
        },
        Direction::Right => if src % (SIZE as int) != SIZE - 1 {
            Some(src + 1)
        } else {
            None
        },
    }
}

/// Where the push sends the digit at `src`: somewhere only if the slot
/// holds a digit, the push has a direction there, and the step is legal.
pub open spec fn move_of(board: FigureView<u8>, push: FigureView<Direction>, src: int) -> Option<
    int,
> {
    match (board.cells[src], push.cells[src]) {
        (Some(_), Some(dir)) => push_target(src, dir),
        _ => None,
    }
}

/// The last slot before `end` whose digit the push sends to `dest`.
pub open spec fn last_source(
    board: FigureView<u8>,
    push: FigureView<Direction>,
    dest: int,
    end: int,
) -> Option<int>
    decreases end,
{
    if end <= 0 {
        None
    } else if move_of(board, push, end - 1) == Some(dest) {
        Some(end - 1)
    } else {
        last_source(board, push, dest, end - 1)
    }
}

/// The slot that `last_source` names is one whose digit moves to `dest`.
pub proof fn last_source_moves(
    board: FigureView<u8>,
    push: FigureView<Direction>,
    dest: int,
    end: int,
)
    ensures
        last_source(board, push, dest, end) matches Some(s) ==> 0 <= s < end && move_of(
            board,
            push,
            s,
        ) == Some(dest) && board.cells[s] is Some,
        last_source(board, push, dest, end) is None ==> forall|s: int|
            0 <= s < end ==> move_of(board, push, s) != Some(dest),
    decreases end,
{
    if end > 0 {
        last_source_moves(board, push, dest, end - 1);
    }
}

/// The board after a push. Every digit under a direction moves one
/// step, all of them at once: a slot receives the digit of the last
/// slot that moves into it, is emptied if its own digit moved away and
/// nothing arrived, and is kept otherwise.
pub open spec fn pushed(board: FigureView<u8>, push: FigureView<Direction>) -> FigureView<u8> {
    FigureView {
        cells: Seq::new(
            AREA as nat,
            |d: int|
                match last_source(board, push, d, AREA as int) {
                    Some(s) => board.cells[s],
                    None => if move_of(board, push, d) is Some {
                        None
                    } else {
                        board.cells[d]
                    },
                },
        ),
        ..board
    }
}

/// The board after a patch has been stamped onto it: the digits of the
/// patch replace what was there, its empty slots change nothing.
pub open spec fn stamped(board: FigureView<u8>, piece: FigureView<u8>) -> FigureView<u8> {
    FigureView {
        cells: Seq::new(
            AREA as nat,
            |i: int|
                match piece.cells[i] {
                    Some(v) => Some(v),
                    None => board.cells[i],
                },
        ),
        ..board
    }
}

/// The board after a copy: every slot under a paste mark holds the
/// digit, or the gap, that the slot under the copy mark held before.
pub open spec fn copied(board: FigureView<u8>, mask: FigureView<CopyPasteCell>) -> FigureView<u8> {
    FigureView {
        cells: Seq::new(
            AREA as nat,
            |i: int|
                if mask.cells[i] == Some(CopyPasteCell::Paste) {
                    board.cells[copy_slot(mask)]
                } else {
                    board.cells[i]
                },
        ),
        ..board
    }
}

/// The board after a swap: the two marked slots exchange what they
/// hold.
pub open spec fn swapped(board: FigureView<u8>, mask: FigureView<Mark>) -> FigureView<u8> {
    let (a, b) = swap_slots(mask);
    FigureView { cells: board.cells.update(a, board.cells[b]).update(b, board.cells[a]), ..board }
}

/// The board after a lift: the marked slots are empty.
pub open spec fn holed(board: FigureView<u8>, mask: FigureView<Mark>) -> FigureView<u8> {
    FigureView {
        cells: Seq::new(
            AREA as nat,
            |i: int|
                if mask.cells[i] is Some {
                    None
                } else {
                    board.cells[i]
                },
        ),
        ..board
    }
}

/// What a lift takes off the board, still where it lay.
pub open spec fn picked(board: FigureView<u8>, mask: FigureView<Mark>) -> FigureView<u8> {
    FigureView {
        cells: Seq::new(
            AREA as nat,
            |i: int|
                if mask.cells[i] is Some {
                    board.cells[i]
                } else {
                    None
                },
        ),
        rotatable: mask.rotatable,
        width: SIZE as int,
        height: SIZE as int,
    }
}

/// Column of slot `i`, or its row if `vertical`.
pub open spec fn coordinate(i: int, vertical: bool) -> int {
    if vertical {
        i / (SIZE as int)
    } else {
        i % (SIZE as int)
    }
}

/// One more than the least coordinate of an occupied slot among the
/// first `n`, or zero if they are all empty.
pub open spec fn least_extent<T>(cells: Seq<Option<T>>, vertical: bool, n: int) -> int
    decreases n,
{
    if n <= 0 {
        0
    } else {
        let rest = least_extent(cells, vertical, n - 1);
        let here = coordinate(n - 1, vertical) + 1;
        if cells[n - 1] is Some && (rest == 0 || here < rest) {
            here
        } else {
            rest
        }
    }
}

/// One more than the greatest coordinate of an occupied slot among the
/// first `n`, or zero if they are all empty.
pub open spec fn greatest_extent<T>(cells: Seq<Option<T>>, vertical: bool, n: int) -> int
    decreases n,
{
    if n <= 0 {
        0
    } else {
        let rest = greatest_extent(cells, vertical, n - 1);
        let here = coordinate(n - 1, vertical) + 1;
        if cells[n - 1] is Some && here > rest {
            here
        } else {
            rest
        }
    }
}

/// How far a pattern whose least extent is `extent` lies from the
/// edge.
pub open spec fn margin(extent: int) -> int {
    if extent == 0 {
        0
    } else {
        extent - 1
    }
}

/// The patch a lift produces: the digits under the mask, moved to the
/// top left corner, with the rectangle that just holds them and the
/// mask's permission to turn.
pub open spec fn lifted(board: FigureView<u8>, mask: FigureView<Mark>) -> FigureView<u8> {
    let taken = picked(board, mask);
    let moved = taken.shifted(
        -margin(least_extent(taken.cells, false, AREA as int)),
        -margin(least_extent(taken.cells, true, AREA as int)),
    );
    FigureView {
        width: greatest_extent(moved.cells, false, AREA as int),
        height: greatest_extent(moved.cells, true, AREA as int),
        ..moved
    }
}

/// The extents bound the coordinates of every occupied slot, and are
/// reached by one of them unless all slots are empty.
pub proof fn extent_bounds<T>(cells: Seq<Option<T>>, vertical: bool, n: int)
    requires
        0 <= n <= AREA,
    ensures
        0 <= least_extent(cells, vertical, n) <= greatest_extent(cells, vertical, n) <= SIZE,
        forall|i: int|
            0 <= i < n && (#[trigger] cells[i]) is Some ==> 1 <= least_extent(cells, vertical, n)
                <= coordinate(i, vertical) + 1 <= greatest_extent(cells, vertical, n),
        least_extent(cells, vertical, n) > 0 ==> exists|i: int|
            0 <= i < n && (#[trigger] cells[i]) is Some && coordinate(i, vertical) + 1
                == least_extent(cells, vertical, n),
        greatest_extent(cells, vertical, n) > 0 ==> exists|i: int|
            0 <= i < n && (#[trigger] cells[i]) is Some && coordinate(i, vertical) + 1
                == greatest_extent(cells, vertical, n),
        least_extent(cells, vertical, n) == 0 <==> greatest_extent(cells, vertical, n) == 0,
    decreases n,
{
    if n > 0 {
        extent_bounds(cells, vertical, n - 1);
        let least = least_extent(cells, vertical, n);
        let greatest = greatest_extent(cells, vertical, n);
        if least > 0 {
            if least == least_extent(cells, vertical, n - 1) {
                let i = choose|i: int|
                    0 <= i < n - 1 && (#[trigger] cells[i]) is Some && coordinate(i, vertical) + 1
                        == least;
                assert(0 <= i < n && cells[i] is Some);
            } else {
                assert(cells[n - 1] is Some);
            }
        }
        if greatest > 0 {
            if greatest == greatest_extent(cells, vertical, n - 1) {
                let i = choose|i: int|
                    0 <= i < n - 1 && (#[trigger] cells[i]) is Some && coordinate(i, vertical) + 1
                        == greatest;
                assert(0 <= i < n && cells[i] is Some);
            } else {
                assert(cells[n - 1] is Some);
            }
        }
    }
}

/// Whether the direction in slot `i`, if there is one, points out of
/// the frame.
pub open spec fn points_outward(push: FigureView<Direction>, i: int) -> bool {
    match push.cells[i] {
        Some(Direction::Up) => i / (SIZE as int) == 0,
        Some(Direction::Down) => i / (SIZE as int) == SIZE - 1,
        Some(Direction::Left) => i % (SIZE as int) == 0,
        Some(Direction::Right) => i % (SIZE as int) == SIZE - 1,
        None => true,
    }
}

/// A push never wraps: if every direction points out of the frame,
/// such as right in the rightmost column or down in the bottom row, the
/// board stays as it is.
pub proof fn push_never_wraps(board: FigureView<u8>, push: FigureView<Direction>)
    requires
        board.cells.len() == AREA,
        forall|i: int| 0 <= i < AREA ==> #[trigger] points_outward(push, i),
    ensures
        pushed(board, push) == board,
{
    assert forall|d: int| 0 <= d < AREA implies #[trigger] pushed(board, push).cells[d]
        == board.cells[d] by {
        last_source_moves(board, push, d, AREA as int);
        assert(points_outward(push, d));
        if let Some(s) = last_source(board, push, d, AREA as int) {
            assert(points_outward(push, s));
        }
    }
    assert(pushed(board, push).cells =~= board.cells);
}

/// How far left a lift moves the digits it takes.
pub open spec fn lift_left(board: FigureView<u8>, mask: FigureView<Mark>) -> int {
    margin(least_extent(picked(board, mask).cells, false, AREA as int))
}

/// How far up a lift moves the digits it takes.
pub open spec fn lift_up(board: FigureView<u8>, mask: FigureView<Mark>) -> int {
    margin(least_extent(picked(board, mask).cells, true, AREA as int))
}

/// A lift loses no digit: each digit under the mask is in the patch,
/// moved left and up as far as the leftmost and the topmost of them
/// allow.
pub proof fn lift_keeps_digit(board: FigureView<u8>, mask: FigureView<Mark>, i: int)
    requires
        board.wf(),
        0 <= i < AREA,
        picked(board, mask).cells[i] is Some,
    ensures
        0 <= move_index(i, -lift_left(board, mask), -lift_up(board, mask)) < AREA,
        lifted(board, mask).cells[move_index(i, -lift_left(board, mask), -lift_up(board, mask))]
            == picked(board, mask).cells[i],
{
    let taken = picked(board, mask);
    least_extent_reaches(taken.cells, false, i);
    least_extent_reaches(taken.cells, true, i);
    taken.moved_slot(-lift_left(board, mask), -lift_up(board, mask), i);
}

/// A lift makes no digit up: each digit of the patch lay under the
/// mask, as far right and down as the patch was moved.
pub proof fn lift_digit_source(board: FigureView<u8>, mask: FigureView<Mark>, d: int)
    requires
        board.wf(),
        0 <= d < AREA,
        lifted(board, mask).cells[d] is Some,
    ensures
        0 <= move_index(d, lift_left(board, mask), lift_up(board, mask)) < AREA,
        lifted(board, mask).cells[d] == picked(board, mask).cells[move_index(
            d,
            lift_left(board, mask),
            lift_up(board, mask),
        )],
{
    picked(board, mask).moved_source(-lift_left(board, mask), -lift_up(board, mask), d);
}

/// What a lift produces is well formed and lies inside its rectangle,
/// takes over the mask's permission to turn, and is empty exactly if
/// nothing was lifted.
pub proof fn lift_is_framed(board: FigureView<u8>, mask: FigureView<Mark>)
    requires
        board.wf(),
    ensures
        lifted(board, mask).wf(),
        lifted(board, mask).contained(),
        lifted(board, mask).rotatable == mask.rotatable,
        (lifted(board, mask).width == 0) == (lifted(board, mask).height == 0),
        (lifted(board, mask).width == 0) == (forall|i: int|
            0 <= i < AREA ==> (#[trigger] picked(board, mask).cells[i]) is None),
{
    let taken = picked(board, mask);
    let piece = lifted(board, mask);
    taken.shifted_wf(-lift_left(board, mask), -lift_up(board, mask));
    extent_bounds(piece.cells, false, AREA as int);
    extent_bounds(piece.cells, true, AREA as int);
    assert forall|i: int| 0 <= i < AREA && (#[trigger] piece.cells[i]) is Some implies i % (
    SIZE as int) < piece.width && i / (SIZE as int) < piece.height by {
        assert(coordinate(i, false) == i % (SIZE as int));
        assert(coordinate(i, true) == i / (SIZE as int));
    }
    if piece.width == 0 {
        assert forall|i: int| 0 <= i < AREA implies (#[trigger] taken.cells[i]) is None by {
            if taken.cells[i] is Some {
                lift_keeps_digit(board, mask, i);
                let to = move_index(i, -lift_left(board, mask), -lift_up(board, mask));
                assert(piece.cells[to] is Some);
            }
        }
    } else {
        let d = choose|d: int|
            0 <= d < AREA && (#[trigger] piece.cells[d]) is Some && coordinate(d, false) + 1
                == piece.width;
        lift_digit_source(board, mask, d);
        let from = move_index(d, lift_left(board, mask), lift_up(board, mask));
        assert(taken.cells[from] is Some);
    }
}

/// The least extent is at most what an occupied slot allows.
pub proof fn least_extent_reaches<T>(cells: Seq<Option<T>>, vertical: bool, i: int)
    requires
        0 <= i < AREA,
        cells[i] is Some,
    ensures
        1 <= least_extent(cells, vertical, AREA as int) <= coordinate(i, vertical) + 1,
{
    extent_bounds(cells, vertical, AREA as int);
}

/// Unless all slots are empty, an occupied slot attains the least
/// extent.
pub proof fn least_extent_witness<T>(cells: Seq<Option<T>>, vertical: bool) -> (i: int)
    requires
        least_extent(cells, vertical, AREA as int) > 0,
    ensures
        0 <= i < AREA,
        cells[i] is Some,
        coordinate(i, vertical) + 1 == least_extent(cells, vertical, AREA as int),
{
    extent_bounds(cells, vertical, AREA as int);
    choose|i: int|
        0 <= i < AREA && (#[trigger] cells[i]) is Some && coordinate(i, vertical) + 1
            == least_extent(cells, vertical, AREA as int)
}

/// Unless nothing was lifted, the patch has a digit in its first
/// column and a digit in its first row.
pub proof fn lift_is_anchored(board: FigureView<u8>, mask: FigureView<Mark>)
    requires
        board.wf(),
        lifted(board, mask).width > 0,
    ensures
        least_extent(lifted(board, mask).cells, false, AREA as int) == 1,
        least_extent(lifted(board, mask).cells, true, AREA as int) == 1,
{
    let taken = picked(board, mask).cells;
    let piece = lifted(board, mask).cells;
    let left = lift_left(board, mask);
    let up = lift_up(board, mask);
    lift_is_framed(board, mask);
    let some = choose|i: int| 0 <= i < AREA && (#[trigger] taken[i]) is Some;
    least_extent_reaches(taken, false, some);
    least_extent_reaches(taken, true, some);
    let ix = least_extent_witness(taken, false);
    let iy = least_extent_witness(taken, true);
    least_extent_reaches(taken, true, ix);
    least_extent_reaches(taken, false, iy);
    let tx = move_index(ix, -left, -up);
    let ty = move_index(iy, -left, -up);
    lift_keeps_digit(board, mask, ix);
    lift_keeps_digit(board, mask, iy);
    assert(coordinate(tx, false) == 0) by {
        slot_coordinates(ix % (SIZE as int) - left, ix / (SIZE as int) - up);
    }
    assert(coordinate(ty, true) == 0) by {
        slot_coordinates(iy % (SIZE as int) - left, iy / (SIZE as int) - up);
    }
    least_extent_reaches(piece, false, tx);
    least_extent_reaches(piece, true, ty);
}

/// One more than the leftmost occupied column, or zero for an empty
/// layout.
pub fn min_x<T>(layout: &[Option<T>; AREA]) -> (r: usize)
    ensures
        r == least_extent(layout@, false, AREA as int),
        r <= SIZE,
{
    let mut best: usize = 0;
    let mut idx: usize = 0;
    while idx < AREA
        invariant
            idx <= AREA,
            best == least_extent(layout@, false, idx as int),
            best <= SIZE,
        decreases AREA - idx,
    {
        let here = idx % SIZE + 1;
        if layout[idx].is_some() && (best == 0 || here < best) {
            best = here;
        }
        idx += 1;
    }
    best
}

/// One more than the topmost occupied row, or zero for an empty layout.
pub fn min_y<T>(layout: &[Option<T>; AREA]) -> (r: usize)
    ensures
        r == least_extent(layout@, true, AREA as int),
        r <= SIZE,
{
    let mut best: usize = 0;
    let mut idx: usize = 0;
    while idx < AREA
        invariant
            idx <= AREA,
            best == least_extent(layout@, true, idx as int),
            best <= SIZE,
        decreases AREA - idx,
    {
        let here = idx / SIZE + 1;
        if layout[idx].is_some() && (best == 0 || here < best) {
            best = here;
        }
        idx += 1;
    }
    best
}

/// One more than the rightmost occupied column, or zero for an empty
/// layout: the width of the smallest rectangle at the corner that holds
/// every occupied slot.
pub fn max_x<T>(layout: &[Option<T>; AREA]) -> (r: usize)
    ensures
        r == greatest_extent(layout@, false, AREA as int),
        r <= SIZE,
{
    let mut best: usize = 0;
    let mut idx: usize = 0;
    while idx < AREA
        invariant
            idx <= AREA,
            best == greatest_extent(layout@, false, idx as int),
            best <= SIZE,
        decreases AREA - idx,
    {
        let here = idx % SIZE + 1;
        if layout[idx].is_some() && here > best {
            best = here;
        }
        idx += 1;
    }
    best
}

/// One more than the lowest occupied row, or zero for an empty layout:
/// the height of the smallest rectangle at the corner that holds every
/// occupied slot.
pub fn max_y<T>(layout: &[Option<T>; AREA]) -> (r: usize)
    ensures
        r == greatest_extent(layout@, true, AREA as int),
        r <= SIZE,
{
    let mut best: usize = 0;
    let mut idx: usize = 0;
    while idx < AREA
        invariant
            idx <= AREA,
            best == greatest_extent(layout@, true, idx as int),
            best <= SIZE,
        decreases AREA - idx,
    {
        let here = idx / SIZE + 1;
        if layout[idx].is_some() && here > best {
            best = here;
        }
        idx += 1;
    }
    best
}

/// The slot a digit at `src` is pushed to, if the step is legal.
fn destination(src: usize, dir: Direction) -> (r: Option<usize>)
    requires
        src < AREA,
    ensures
        push_target(src as int, dir) == (match r {
            Some(dest) => Some(dest as int),
            None => None,
        }),
{
    let step: isize = match dir {
        Direction::Down => SIZE as isize,
        Direction::Left => -1,
        Direction::Right => 1,
        Direction::Up => -(SIZE as isize),
    };
    match src.checked_add_signed(step) {
        None => None,
        Some(dest) => {
            let sx = src % SIZE;
            let sy = src / SIZE;
            let dx = dest % SIZE;
            let dy = dest / SIZE;
            if (sx != dx && sy != dy) || dest >= AREA {
                None
            } else {
                Some(dest)
            }
        },
    }
}

impl Board {
    /// Moves every digit that lies under a direction of `push` one step
    /// in that direction. The moves happen at once, from the board as it
    /// was; a step that would leave the frame, or wrap into the next row,
    /// is not made. If two digits reach one slot, the one that came from
    /// the later slot stays.
    pub fn apply_push(&self, push: &Push) -> (r: Self)
        ensures
            r@ == pushed(self@, push@),
    {
        let mut out = self.layout();
        let mut lifted: [Option<u8>; AREA] = [None;AREA];
        let mut src: usize = 0;
        while src < AREA
            invariant
                src <= AREA,
                self@.wf(),
                forall|d: int|
                    0 <= d < AREA ==> #[trigger] lifted@[d] == (match last_source(
                        self@,
                        push@,
                        d,
                        src as int,
                    ) {
                        Some(s) => self@.cells[s],
                        None => None,
                    }),
                forall|d: int|
                    0 <= d < AREA ==> ((#[trigger] lifted@[d]) matches Some(v) ==> v.valid()),
                forall|d: int|
                    0 <= d < AREA ==> #[trigger] out@[d] == (if d < src && move_of(
                        self@,
                        push@,
                        d,
                    ) is Some {
                        None
                    } else {
                        self@.cells[d]
                    }),
            decreases AREA - src,
        {
            if let Some(dir) = push.slot(src) {
                if out[src].is_some() {
                    if let Some(dest) = destination(src, dir) {
                        lifted[dest] = out[src];
                        out[src] = None;
                    }
                }
            }
            src += 1;
        }
        let mut result = Figure::from_parts(
            out,
            self.is_rotatable(),
            self.bounding_width(),
            self.bounding_height(),
        );
        let moved = Figure::from_parts(lifted, false, SIZE, SIZE);
        result.apply_piece_mut(&moved);
        assert forall|d: int| 0 <= d < AREA implies #[trigger] result@.cells[d] == pushed(
            self@,
            push@,
        ).cells[d] by {
            last_source_moves(self@, push@, d, AREA as int);
        }
        assert(result@.cells =~= pushed(self@, push@).cells);
        result
    }

    /// Takes every digit under a mark of `lift` off the board. Returns
    /// the board with the gaps, and the digits taken as a new patch: moved
    /// to the top left corner, framed by the rectangle that just holds
    /// them, and free to turn if the mask was.
    pub fn apply_lift(&self, lift: &Shape) -> (r: (Self, Piece))
        ensures
            r.0@ == holed(self@, lift@),
            r.1@ == lifted(self@, lift@),
    {
        let mut out = self.layout();
        let mut taken: [Option<u8>; AREA] = [None;AREA];
        let mut idx: usize = 0;
        while idx < AREA
            invariant
                idx <= AREA,
                self@.wf(),
                forall|k: int|
                    0 <= k < AREA ==> #[trigger] out@[k] == (if k < idx {
                        holed(self@, lift@).cells[k]
                    } else {
                        self@.cells[k]
                    }),
                forall|k: int|
                    0 <= k < AREA ==> #[trigger] taken@[k] == (if k < idx {
                        picked(self@, lift@).cells[k]
                    } else {
                        None
                    }),
            decreases AREA - idx,
        {
            if lift.slot(idx).is_some() {
                taken[idx] = out[idx];
                out[idx] = None;
            }
            idx += 1;
        }
        assert(out@ =~= holed(self@, lift@).cells);
        assert(taken@ =~= picked(self@, lift@).cells);
        let rest = Figure::from_parts(
            out,
            self.is_rotatable(),
            self.bounding_width(),
            self.bounding_height(),
        );
        let loose = Figure::from_parts(taken, lift.is_rotatable(), SIZE, SIZE);
        let left = min_x(&taken);
        let top = min_y(&taken);
        let dx: isize = if left == 0 {
            0
        } else {
            -((left - 1) as isize)
        };
        let dy: isize = if top == 0 {
            0
        } else {
            -((top - 1) as isize)
        };
        let moved = loose.shift(dx, dy);
        let cells = moved.layout();
        let piece = Figure::from_parts(cells, lift.is_rotatable(), max_x(&cells), max_y(&cells));
        (rest, piece)
    }

    /// Copies the digit under the copy mark of `copy` to every slot
    /// under a paste mark. The digit is read before anything is written;
    /// if there is none, the paste slots are emptied.
    pub fn apply_copy(&self, copy: &CopyPaste) -> (r: Self)
        ensures
            r@ == copied(self@, copy@),
    {
        let source = copy.copy_idx();
        let mask = copy.layout();
        let mut cells = self.layout();
        let held = cells[source];
        let mut i: usize = 0;
        while i < AREA
            invariant
                i <= AREA,
                self@.wf(),
                copy.inv(),
                mask@ == copy@.cells,
                source == copy_slot(copy@),
                copy_at(copy@, source as int),
                held == self@.cells[source as int],
                forall|k: int|
                    0 <= k < AREA ==> #[trigger] cells@[k] == (if k < i {
                        copied(self@, copy@).cells[k]
                    } else {
                        self@.cells[k]
                    }),
            decreases AREA - i,
        {
            if mask[i].is_some() {
                proof {
                    if mask@[i as int] != Some(CopyPasteCell::Paste) {
                        copy_slot_unique(copy@, i as int);
                    }
                }
                cells[i] = held;
            }
            i += 1;
        }
        assert(cells@ =~= copied(self@, copy@).cells);
        Figure::from_parts(
            cells,
            self.is_rotatable(),
            self.bounding_width(),
            self.bounding_height(),
        )
    }

    /// Exchanges the digits under the two marks of `swap`.
    pub fn apply_swap(&self, swap: &Swap) -> (r: Self)
        ensures
            r@ == swapped(self@, swap@),
    {
        let mut cells = self.layout();
        let pair = swap.swap_idxs();
        let first = pair[0];
        let second = pair[1];
        cells[first] = self.slot(second);
        cells[second] = self.slot(first);
        assert(cells@ =~= swapped(self@, swap@).cells);
        Figure::from_parts(
            cells,
            self.is_rotatable(),
            self.bounding_width(),
            self.bounding_height(),
        )
    }

    /// Stamps `piece` onto a copy of the board: every digit of the patch
    /// replaces what the board holds there.
    pub fn apply_piece(&self, piece: &Piece) -> (r: Self)
        ensures
            r@ == stamped(self@, piece@),
    {
        let mut out = *self;
        out.apply_piece_mut(piece);
        out
    }

    /// Stamps `piece` onto the board in place.
    pub fn apply_piece_mut(&mut self, piece: &Piece)
        ensures
            final(self)@ == stamped(old(self)@, piece@),
    {
        proof {
            use_type_invariant(piece);
        }
        let mut cells = self.layout();
        let mut i: usize = 0;
        while i < AREA
            invariant
                i <= AREA,
                self@.wf(),
                piece@.wf(),
                forall|k: int|
                    0 <= k < AREA ==> #[trigger] cells@[k] == (if k < i {
                        stamped(self@, piece@).cells[k]
                    } else {
                        self@.cells[k]
                    }),
            decreases AREA - i,
        {
            let src = piece.slot(i);
            if src.is_some() {
                cells[i] = src;
            }
            i += 1;
        }
        assert(cells@ =~= stamped(self@, piece@).cells);
        *self = Figure::from_parts(
            cells,
            self.is_rotatable(),
            self.bounding_width(),
            self.bounding_height(),
        );
    }
}

} // verus!
