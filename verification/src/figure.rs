//! Patterns on the frame and the geometry that places them.

use vstd::prelude::*;
use crate::cell::{Direction, InbentoCell, Mark, AREA, SIZE};

verus! {

/// Mathematical model of a pattern: nine slots in row-major order, the
/// flag that allows turning it, and the rectangle, anchored at the top
/// left corner, that the pattern claims.
pub struct FigureView<T> {
    pub cells: Seq<Option<T>>,
    pub rotatable: bool,
    pub width: int,
    pub height: int,
}

/// `s` without the elements that equal their predecessor.
pub open spec fn dedup<A>(s: Seq<A>) -> Seq<A>
    decreases s.len(),
{
    if s.len() <= 1 {
        s
    } else if s[s.len() - 1] == s[s.len() - 2] {
        dedup(s.drop_last())
    } else {
        dedup(s.drop_last()).push(s.last())
    }
}

/// The offsets `(x, y)` with `0 <= x <= max_x` and `0 <= y <= max_y`, the
/// first component varying slowest.
pub open spec fn offset_grid(max_x: int, max_y: int) -> Seq<(usize, usize)> {
    Seq::new(
        ((max_x + 1) * (max_y + 1)) as nat,
        |i: int| ((i / (max_y + 1)) as usize, (i % (max_y + 1)) as usize),
    )
}

impl<T: InbentoCell> FigureView<T> {
    /// Nine slots, a rectangle no larger than the frame, and only
    /// payloads the notation can express.
    pub open spec fn wf(self) -> bool {
        &&& self.cells.len() == AREA
        &&& 0 <= self.width <= SIZE
        &&& 0 <= self.height <= SIZE
        &&& forall|i: int|
            0 <= i < AREA ==> ((#[trigger] self.cells[i]) matches Some(v) ==> v.valid())
    }

    /// Every occupied slot lies inside the claimed rectangle.
    pub open spec fn contained(self) -> bool {
        forall|i: int|
            0 <= i < AREA && (#[trigger] self.cells[i]) is Some ==> i % (SIZE as int) < self.width
                && i / (SIZE as int) < self.height
    }

    /// The slot in column `x` of row `y`; empty outside the frame.
    pub open spec fn at(self, x: int, y: int) -> Option<T> {
        if 0 <= x < SIZE && 0 <= y < SIZE {
            self.cells[y * SIZE + x]
        } else {
            None
        }
    }

    /// The pattern turned a quarter clockwise inside its rectangle: the
    /// slot at `(x, y)` moves to `(height - 1 - y, x)`, its payload turns
    /// with it, and the rectangle swaps its sides.
    pub open spec fn rotated(self) -> Self {
        FigureView {
            cells: Seq::new(
                AREA as nat,
                |d: int|
                    {
                        let dx = d % (SIZE as int);
                        let dy = d / (SIZE as int);
                        if dx < self.height && dy < self.width {
                            match self.at(dy, self.height - 1 - dx) {
                                Some(v) => Some(v.turned()),
                                None => None,
                            }
                        } else {
                            None
                        }
                    },
            ),
            rotatable: self.rotatable,
            width: self.height,
            height: self.width,
        }
    }

    /// The slots of the rectangle moved by `(dx, dy)`; what leaves the
    /// frame is dropped, and the result claims the whole frame.
    pub open spec fn shifted(self, dx: int, dy: int) -> Self {
        FigureView {
            cells: Seq::new(
                AREA as nat,
                |d: int|
                    {
                        let sx = d % (SIZE as int) - dx;
                        let sy = d / (SIZE as int) - dy;
                        if 0 <= sx < self.width && 0 <= sy < self.height {
                            self.at(sx, sy)
                        } else {
                            None
                        }
                    },
            ),
            rotatable: self.rotatable,
            width: SIZE as int,
            height: SIZE as int,
        }
    }

    /// Every placement that keeps the rectangle inside the frame, the
    /// horizontal offset varying slowest.
    pub open spec fn translations(self) -> Seq<Self> {
        offset_grid(SIZE - self.width, SIZE - self.height).map_values(
            |o: (usize, usize)| self.shifted(o.0 as int, o.1 as int),
        )
    }

    /// The pattern turned by 0, 180, 90 and 270 degrees, in this order,
    /// without those that equal their predecessor.
    pub open spec fn rotations(self) -> Seq<Self> {
        dedup(
            seq![
                self,
                self.rotated().rotated(),
                self.rotated(),
                self.rotated().rotated().rotated(),
            ],
        )
    }

    /// Every way the pattern may be laid on the frame: its placements
    /// if it is fixed, the placements of each of its rotations otherwise.
    pub open spec fn transformations(self) -> Seq<Self> {
        if !self.rotatable {
            self.translations()
        } else {
            self.rotations().flat_map(|turn: Self| turn.translations())
        }
    }

    /// Whether slot `i` holds `payload`.
    pub open spec fn holds(self, i: int, payload: T) -> bool {
        0 <= i < AREA && self.cells[i] == Some(payload)
    }

    /// Whether `slots` lists, in increasing order, exactly the slots
    /// that hold `payload`.
    pub open spec fn lists_holders(self, slots: Seq<usize>, payload: T) -> bool {
        &&& forall|k: int| 0 <= k < slots.len() ==> self.holds((#[trigger] slots[k]) as int, payload)
        &&& forall|k: int, l: int|
            0 <= k < l < slots.len() ==> (#[trigger] slots[k]) < (#[trigger] slots[l])
        &&& forall|i: int| #[trigger] self.holds(i, payload) ==> slots.contains(i as usize)
    }

    /// Turning keeps a pattern well formed and inside its rectangle.
    pub proof fn rotated_wf(self)
        requires
            self.wf(),
        ensures
            self.rotated().wf(),
            self.rotated().contained(),
    {
        let r = self.rotated();
        assert forall|i: int| 0 <= i < AREA implies ((#[trigger] r.cells[i]) matches Some(
            v,
        ) ==> v.valid()) by {
            let dx = i % (SIZE as int);
            let dy = i / (SIZE as int);
            if dx < self.height && dy < self.width {
                let s = (self.height - 1 - dx) * SIZE + dy;
                if let Some(v) = self.cells[s] {
                    T::turned_is_valid(v);
                }
            }
        }
    }

    /// Moving keeps a pattern well formed and inside its rectangle.
    pub proof fn shifted_wf(self, dx: int, dy: int)
        requires
            self.wf(),
        ensures
            self.shifted(dx, dy).wf(),
            self.shifted(dx, dy).contained(),
    {
        let r = self.shifted(dx, dy);
        assert forall|i: int| 0 <= i < AREA implies ((#[trigger] r.cells[i]) matches Some(
            v,
        ) ==> v.valid()) by {
            let sx = i % (SIZE as int) - dx;
            let sy = i / (SIZE as int) - dy;
            if 0 <= sx < self.width && 0 <= sy < self.height {
                assert(r.cells[i] == self.cells[sy * SIZE + sx]);
            }
        }
    }
}

/// The models of a sequence of patterns.
pub open spec fn views<T: InbentoCell>(figures: Seq<Figure<T>>) -> Seq<FigureView<T>> {
    figures.map_values(|f: Figure<T>| f@)
}

/// A pattern on the three-by-three frame.
///
/// Each of the nine slots is empty or holds a payload. The pattern is
/// written either in square brackets (fixed orientation) or in round
/// brackets (may be turned), and it remembers the rectangle its notation
/// spanned.
#[derive(Debug, PartialEq, Eq, Hash)]
pub struct Figure<T: InbentoCell> {
    layout: [Option<T>; AREA],
    rotatable: bool,
    bounding_width: usize,
    bounding_height: usize,
}

impl<T: InbentoCell> Clone for Figure<T> {
    fn clone(&self) -> (r: Self)
        ensures
            r == *self,
    {
        *self
    }
}

impl<T: InbentoCell> Copy for Figure<T> {

}

impl<T: InbentoCell> View for Figure<T> {
    type V = FigureView<T>;

    closed spec fn view(&self) -> FigureView<T> {
        FigureView {
            cells: self.layout@,
            rotatable: self.rotatable,
            width: self.bounding_width as int,
            height: self.bounding_height as int,
        }
    }
}

/// A patch of digits that can be stamped onto a board.
pub type Piece = Figure<u8>;

/// A mask that selects slots of a board.
pub type Shape = Figure<Mark>;

/// A field of directions, one for each digit that is to move.
pub type Push = Figure<Direction>;

/// Returns the items as an array of `N`, if there are exactly `N`.
pub fn try_into_array<const N: usize>(items: &Vec<usize>) -> (r: Result<[usize; N], ()>)
    ensures
        r is Ok <==> items@.len() == N,
        r matches Ok(array) ==> array@ == items@,
{
    if items.len() != N {
        return Err(());
    }
    let mut array: [usize; N] = [0;N];
    let mut i: usize = 0;
    while i < N
        invariant
            i <= N,
            items@.len() == N,
            forall|k: int| 0 <= k < i ==> array@[k] == items@[k],
        decreases N - i,
    {
        array[i] = items[i];
        i += 1;
    }
    assert(array@ =~= items@);
    Ok(array)
}

/// Moves a coordinate of the frame by `delta`, if it stays in the frame.
fn offset(pos: usize, delta: isize) -> (r: Option<usize>)
    requires
        pos < SIZE,
    ensures
        r == (if 0 <= pos + delta < SIZE {
            Some((pos + delta) as usize)
        } else {
            None
        }),
{
    match pos.checked_add_signed(delta) {
        Some(moved) => if moved < SIZE {
            Some(moved)
        } else {
            None
        },
        None => None,
    }
}

/// The pairs of `0..=max_x` and `0..=max_y`.
///
/// Calls `itertools::Itertools::cartesian_product`, the function behind
/// `iproduct!` for two iterators, and collects what it yields. The
/// contract claims the order the adaptor documents: for each item of the
/// first range in turn, every item of the second range in turn.
#[verifier::external_body]
fn offset_pairs(max_x: usize, max_y: usize) -> (r: Vec<(usize, usize)>)
    requires
        max_x <= SIZE,
        max_y <= SIZE,
    ensures
        r@ == offset_grid(max_x as int, max_y as int),
{
    itertools::Itertools::cartesian_product(0..=max_x, 0..=max_y).collect()
}

impl<T: InbentoCell> Figure<T> {
    /// What holds of every pattern: its model is well formed.
    #[verifier::type_invariant]
    pub open spec fn inv(&self) -> bool {
        self@.wf()
    }

    /// Builds a pattern from its parts.
    pub(crate) fn from_parts(
        layout: [Option<T>; AREA],
        rotatable: bool,
        width: usize,
        height: usize,
    ) -> (r: Self)
        requires
            width <= SIZE,
            height <= SIZE,
            forall|i: int| 0 <= i < AREA ==> ((#[trigger] layout@[i]) matches Some(v) ==> v.valid()),
        ensures
            r@ == (FigureView {
                cells: layout@,
                rotatable,
                width: width as int,
                height: height as int,
            }),
    {
        Figure { layout, rotatable, bounding_width: width, bounding_height: height }
    }

    /// All nine slots in row-major order.
    pub(crate) fn layout(&self) -> (r: [Option<T>; AREA])
        ensures
            r@ == self@.cells,
            self@.wf(),
    {
        proof {
            use_type_invariant(self);
        }
        self.layout
    }

    /// The slot with row-major index `idx`.
    pub(crate) fn slot(&self, idx: usize) -> (r: Option<T>)
        requires
            idx < AREA,
        ensures
            r == self@.cells[idx as int],
            self@.wf(),
    {
        proof {
            use_type_invariant(self);
        }
        self.layout[idx]
    }

    /// The slot in column `x` of row `y`; empty outside the frame.
    pub fn cell(&self, x: usize, y: usize) -> (r: Option<T>)
        ensures
            r == self@.at(x as int, y as int),
    {
        if x < SIZE && y < SIZE {
            self.layout[y * SIZE + x]
        } else {
            None
        }
    }

    /// Returns the indices of the slots that hold `payload`, in
    /// increasing order.
    pub fn slots_holding(&self, payload: &T) -> (r: Vec<usize>)
        ensures
            self@.lists_holders(r@, *payload),
    {
        let mut out: Vec<usize> = Vec::new();
        let mut i: usize = 0;
        while i < AREA
            invariant
                i <= AREA,
                forall|k: int| 0 <= k < out@.len() ==> (#[trigger] out@[k]) < i && self@.holds(
                    out@[k] as int,
                    *payload,
                ),
                forall|k: int, l: int|
                    0 <= k < l < out@.len() ==> (#[trigger] out@[k]) < (#[trigger] out@[l]),
                forall|j: int|
                    0 <= j < i && #[trigger] self@.holds(j, *payload) ==> out@.contains(j as usize),
            decreases AREA - i,
        {
            let found = match self.layout[i] {
                Some(v) => v.same(payload),
                None => false,
            };
            if found {
                let ghost before = out@;
                out.push(i);
                proof {
                    assert forall|j: int|
                        0 <= j < i + 1 && #[trigger] self@.holds(j, *payload) implies out@.contains(
                        j as usize,
                    ) by {
                        if j < i {
                            let k = choose|k: int| 0 <= k < before.len() && before[k] == j as usize;
                            assert(out@[k] == j as usize);
                        } else {
                            assert(out@[before.len() as int] == i);
                        }
                    }
                }
            }
            i += 1;
        }
        out
    }

    /// Whether the pattern may be turned before it is placed.
    pub fn is_rotatable(&self) -> (r: bool)
        ensures
            r == self@.rotatable,
    {
        self.rotatable
    }

    /// Width of the rectangle the pattern claims.
    pub fn bounding_width(&self) -> (r: usize)
        ensures
            r == self@.width,
            r <= SIZE,
    {
        proof {
            use_type_invariant(self);
        }
        self.bounding_width
    }

    /// Height of the rectangle the pattern claims.
    pub fn bounding_height(&self) -> (r: usize)
        ensures
            r == self@.height,
            r <= SIZE,
    {
        proof {
            use_type_invariant(self);
        }
        self.bounding_height
    }

    /// Whether two patterns agree in every slot, in the flag and in the
    /// rectangle.
    pub fn equals(&self, other: &Self) -> (r: bool)
        ensures
            r == (self@ == other@),
    {
        if self.rotatable != other.rotatable || self.bounding_width != other.bounding_width
            || self.bounding_height != other.bounding_height {
            return false;
        }
        let mut i: usize = 0;
        while i < AREA
            invariant
                i <= AREA,
                forall|j: int| 0 <= j < i ==> self.layout@[j] == other.layout@[j],
            decreases AREA - i,
        {
            let alike = match (self.layout[i], other.layout[i]) {
                (Some(a), Some(b)) => a.same(&b),
                (None, None) => true,
                _ => false,
            };
            if !alike {
                return false;
            }
            i += 1;
        }
        assert(self.layout@ =~= other.layout@);
        true
    }

    /// Returns the pattern turned a quarter clockwise. The rectangle
    /// turns with it, and so does every payload that has a direction.
    ///
    /// ```text
    ///  (123)    (41)
    ///  (4..) => (.2)
    ///           (.3)
    /// ```
    pub fn rotate(&self) -> (r: Self)
        ensures
            r@ == self@.rotated(),
    {
        proof {
            use_type_invariant(self);
            self@.rotated_wf();
        }
        let mut layout: [Option<T>; AREA] = [None;AREA];
        let h = self.bounding_height;
        let w = self.bounding_width;
        let mut sy: usize = 0;
        while sy < h
            invariant
                self@.wf(),
                h == self.bounding_height,
                w == self.bounding_width,
                sy <= h,
                forall|d: int|
                    0 <= d < AREA ==> #[trigger] layout@[d] == (if d % (SIZE as int) >= h - sy {
                        self@.rotated().cells[d]
                    } else {
                        None
                    }),
            decreases h - sy,
        {
            let mut sx: usize = 0;
            while sx < w
                invariant
                    self@.wf(),
                    h == self.bounding_height,
                    w == self.bounding_width,
                    sy < h,
                    sx <= w,
                    forall|d: int|
                        0 <= d < AREA ==> #[trigger] layout@[d] == (if d % (SIZE as int) >= h - sy
                            || (d % (SIZE as int) == h - sy - 1 && d / (SIZE as int) < sx) {
                            self@.rotated().cells[d]
                        } else {
                            None
                        }),
                decreases w - sx,
            {
                let dx = h - sy - 1;
                let dy = sx;
                let sidx = sy * SIZE + sx;
                let didx = dy * SIZE + dx;
                layout[didx] = match self.layout[sidx] {
                    Some(v) => Some(v.rotate()),
                    None => None,
                };
                sx += 1;
            }
            sy += 1;
        }
        assert(layout@ =~= self@.rotated().cells);
        Figure { layout, rotatable: self.rotatable, bounding_width: h, bounding_height: w }
    }

    /// Returns the pattern moved by `dx` columns and `dy` rows. The
    /// result claims the whole frame: it is a placement, no longer a
    /// bare pattern. Slots that would leave the frame are dropped.
    ///
    /// ```text
    ///  (56)    (...)
    ///       => (...)    moved by (1, 2)
    ///          (.56)
    /// ```
    pub fn shift(&self, dx: isize, dy: isize) -> (r: Self)
        ensures
            r@ == self@.shifted(dx as int, dy as int),
    {
        proof {
            use_type_invariant(self);
            self@.shifted_wf(dx as int, dy as int);
        }
        let ghost goal = self@.shifted(dx as int, dy as int);
        let mut layout: [Option<T>; AREA] = [None;AREA];
        let h = self.bounding_height;
        let w = self.bounding_width;
        let mut sy: usize = 0;
        while sy < h
            invariant
                self@.wf(),
                goal == self@.shifted(dx as int, dy as int),
                h == self.bounding_height,
                w == self.bounding_width,
                sy <= h,
                forall|d: int|
                    0 <= d < AREA ==> #[trigger] layout@[d] == (if d / (SIZE as int) - dy < sy {
                        goal.cells[d]
                    } else {
                        None
                    }),
            decreases h - sy,
        {
            if let Some(ty) = offset(sy, dy) {
                let mut sx: usize = 0;
                while sx < w
                    invariant
                        self@.wf(),
                        goal == self@.shifted(dx as int, dy as int),
                        h == self.bounding_height,
                        w == self.bounding_width,
                        sy < h,
                        sx <= w,
                        ty == sy + dy,
                        ty < SIZE,
                        forall|d: int|
                            0 <= d < AREA ==> #[trigger] layout@[d] == (if d / (SIZE as int) - dy
                                < sy || (d / (SIZE as int) - dy == sy && d % (SIZE as int) - dx
                                < sx) {
                                goal.cells[d]
                            } else {
                                None
                            }),
                    decreases w - sx,
                {
                    if let Some(tx) = offset(sx, dx) {
                        layout[ty * SIZE + tx] = self.layout[sy * SIZE + sx];
                    }
                    sx += 1;
                }
            }
            sy += 1;
        }
        assert(layout@ =~= goal.cells);
        Figure { layout, rotatable: self.rotatable, bounding_width: SIZE, bounding_height: SIZE }
    }

    /// Returns every placement of the pattern that keeps its rectangle
    /// inside the frame.
    ///
    /// ```text
    ///  (12)    (12.)  (...)  (.12)  (...)
    ///  (34) => (34.)  (12.)  (.34)  (.12)
    ///          (...)  (34.)  (...)  (.34)
    /// ```
    pub fn all_translations(&self) -> (r: Vec<Self>)
        ensures
            views(r@) == self@.translations(),
    {
        proof {
            use_type_invariant(self);
        }
        let offsets = offset_pairs(SIZE - self.bounding_width, SIZE - self.bounding_height);
        proof {
            let max_x = SIZE - self@.width;
            let max_y = SIZE - self@.height;
            assert((max_x + 1) * (max_y + 1) >= 0) by (nonlinear_arith)
                requires
                    0 <= max_x,
                    0 <= max_y,
            ;
        }
        let mut out: Vec<Self> = Vec::new();
        let mut i: usize = 0;
        while i < offsets.len()
            invariant
                self@.wf(),
                i <= offsets.len(),
                offsets@ == offset_grid(SIZE - self@.width, SIZE - self@.height),
                offsets@.len() == (SIZE - self@.width + 1) * (SIZE - self@.height + 1),
                out@.len() == i,
                forall|j: int| 0 <= j < i ==> (#[trigger] out@[j])@ == self@.translations()[j],
            decreases offsets.len() - i,
        {
            let (x, y) = offsets[i];
            proof {
                let max_x = SIZE - self@.width;
                let max_y = SIZE - self@.height;
                let k = i as int;
                assert(0 <= k / (max_y + 1) <= max_x && 0 <= k % (max_y + 1) <= max_y)
                    by (nonlinear_arith)
                    requires
                        0 <= k < (max_x + 1) * (max_y + 1),
                        0 <= max_x,
                        0 <= max_y,
                ;
            }
            out.push(self.shift(x as isize, y as isize));
            i += 1;
        }
        assert(views(out@) =~= self@.translations());
        out
    }

    /// Returns the rotations of the pattern by 0, 180, 90 and 270
    /// degrees, leaving out each one that equals the one before it. The
    /// flag that allows turning is not consulted.
    ///
    /// ```text
    ///  (>v)    (>v)  (.<)  (v^v)  (>..)
    ///  (<.) => (<.)  (.>)  (..<)  (^v^)
    ///  (>.)    (>.)  (^<)
    /// ```
    pub fn all_rotations(&self) -> (r: Vec<Self>)
        ensures
            views(r@) == self@.rotations(),
    {
        let turn90 = self.rotate();
        let turn180 = turn90.rotate();
        let turn270 = turn180.rotate();
        let candidates: [Self; 4] = [*self, turn180, turn90, turn270];
        let ghost all = seq![
            self@,
            self@.rotated().rotated(),
            self@.rotated(),
            self@.rotated().rotated().rotated(),
        ];
        let mut out: Vec<Self> = Vec::new();
        let mut i: usize = 0;
        while i < 4
            invariant
                i <= 4,
                all.len() == 4,
                forall|j: int| 0 <= j < 4 ==> (#[trigger] candidates@[j])@ == all[j],
                views(out@) == dedup(all.take(i as int)),
            decreases 4 - i,
        {
            proof {
                reveal_with_fuel(dedup, 2);
                assert(all.take(i + 1).drop_last() =~= all.take(i as int));
            }
            let repeated = i > 0 && candidates[i].equals(&candidates[i - 1]);
            if !repeated {
                out.push(candidates[i]);
                assert(views(out@) =~= dedup(all.take(i as int)).push(all[i as int]));
            }
            i += 1;
        }
        assert(all.take(4) =~= all);
        out
    }

    /// Returns every way the pattern may be laid on the frame: all
    /// placements of all its rotations, or only its placements if the
    /// pattern must keep its orientation.
    ///
    /// ```text
    ///  (123)    (123)  (...)  (6.4)  (...)  (41.)  (.41)  (36.)  (.36)
    ///  (4.6) => (4.6)  (123)  (321)  (6.4)  (.2.)  (..2)  (2..)  (.2.)
    ///           (...)  (4.6)  (...)  (321)  (63.)  (.63)  (14.)  (.14)
    /// ```
    pub fn all_transformations(&self) -> (r: Vec<Self>)
        ensures
            views(r@) == self@.transformations(),
    {
        if !self.rotatable {
            return self.all_translations();
        }
        let rotations = self.all_rotations();
        let ghost place = |turn: FigureView<T>| turn.translations();
        let mut out: Vec<Self> = Vec::new();
        let mut i: usize = 0;
        while i < rotations.len()
            invariant
                i <= rotations.len(),
                views(rotations@) == self@.rotations(),
                place == |turn: FigureView<T>| turn.translations(),
                views(out@) == self@.rotations().take(i as int).flat_map(place),
            decreases rotations.len() - i,
        {
            let mut placed = rotations[i].all_translations();
            proof {
                self@.rotations().lemma_flat_map_take_append(place, i as int);
                assert(views(out@ + placed@) =~= views(out@) + views(placed@));
                assert(views(rotations@)[i as int] == rotations@[i as int]@);
            }
            out.append(&mut placed);
            i += 1;
        }
        assert(self@.rotations().take(rotations.len() as int) =~= self@.rotations());
        out
    }
}

} // verus!

