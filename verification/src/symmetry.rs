//! Laws of turning and placing patterns.

use vstd::prelude::*;
use crate::cell::{InbentoCell, AREA, SIZE};
use crate::figure::{dedup, FigureView};

verus! {

/// A payload after a quarter turn, if there is one.
pub open spec fn turned_slot<T: InbentoCell>(slot: Option<T>) -> Option<T> {
    match slot {
        Some(v) => Some(v.turned()),
        None => None,
    }
}

/// Where a quarter turn of a pattern of the given height takes slot `i`.
pub open spec fn turn_index(i: int, height: int) -> int {
    (i % (SIZE as int)) * SIZE + (height - 1 - i / (SIZE as int))
}

/// The slot that a quarter turn of a pattern of the given height takes
/// to slot `d`.
pub open spec fn turn_source(d: int, height: int) -> int {
    (height - 1 - d % (SIZE as int)) * SIZE + d / (SIZE as int)
}

/// Where a move by `(dx, dy)` takes slot `i`.
pub open spec fn move_index(i: int, dx: int, dy: int) -> int {
    i + dy * SIZE + dx
}

/// Column and row of the slot in column `x` of row `y`.
pub proof fn slot_coordinates(x: int, y: int)
    requires
        0 <= x < SIZE,
    ensures
        (y * SIZE + x) % (SIZE as int) == x,
        (y * SIZE + x) / (SIZE as int) == y,
{
    let side = SIZE as int;
    assert((y * side + x) % side == x && (y * side + x) / side == y) by (nonlinear_arith)
        requires
            0 <= x < side,
    ;
}

/// Every element of `dedup(s)` is an element of `s`.
pub proof fn dedup_member<A>(s: Seq<A>, j: int) -> (i: int)
    requires
        0 <= j < dedup(s).len(),
    ensures
        0 <= i < s.len(),
        dedup(s)[j] == s[i],
    decreases s.len(),
{
    if s.len() <= 1 {
        j
    } else if s[s.len() - 1] == s[s.len() - 2] {
        dedup_member(s.drop_last(), j)
    } else if j < dedup(s.drop_last()).len() {
        dedup_member(s.drop_last(), j)
    } else {
        s.len() - 1
    }
}

/// Every element of `s.flat_map(f)` is an element of `f` applied to
/// some element of `s`.
pub proof fn flat_map_member<A, B>(s: Seq<A>, f: spec_fn(A) -> Seq<B>, k: int) -> (w: (int, int))
    requires
        0 <= k < s.flat_map(f).len(),
    ensures
        0 <= w.0 < s.len(),
        0 <= w.1 < f(s[w.0]).len(),
        s.flat_map(f)[k] == f(s[w.0])[w.1],
    decreases s.len(),
{
    if s.len() == 0 {
        assert(s.map_values(f) =~= Seq::<Seq<B>>::empty());
        assert(s.flat_map(f).len() == 0);
        (0, 0)
    } else {
        let init = s.drop_last();
        init.lemma_flat_map_push(f, s.last());
        assert(init.push(s.last()) =~= s);
        if k < init.flat_map(f).len() {
            flat_map_member(init, f, k)
        } else {
            (s.len() - 1, k - init.flat_map(f).len())
        }
    }
}

impl<T: InbentoCell> FigureView<T> {
    /// Whether the pattern is `origin` after fewer than four quarter
    /// turns, placed so that its rectangle lies inside the frame.
    pub open spec fn is_placement_of(self, origin: Self) -> bool {
        exists|turns: nat, dx: int, dy: int|
            #![trigger origin.turned_by(turns).shifted(dx, dy)]
            turns < 4 && 0 <= dx <= SIZE - origin.turned_by(turns).width && 0 <= dy <= SIZE
                - origin.turned_by(turns).height && self == origin.turned_by(turns).shifted(dx, dy)
    }

    /// The pattern after `n` quarter turns clockwise.
    pub open spec fn turned_by(self, n: nat) -> Self
        decreases n,
    {
        if n == 0 {
            self
        } else {
            self.turned_by((n - 1) as nat).rotated()
        }
    }

    /// A quarter turn takes the slot at `(x, y)` of the rectangle to
    /// `(height - 1 - y, x)` and turns its payload.
    pub proof fn rotated_at(self, x: int, y: int)
        requires
            self.wf(),
            0 <= x < self.width,
            0 <= y < self.height,
        ensures
            self.rotated().at(self.height - 1 - y, x) == turned_slot(self.at(x, y)),
    {
        slot_coordinates(self.height - 1 - y, x);
    }

    /// Four quarter turns give back the pattern.
    pub proof fn four_turns(self)
        requires
            self.wf(),
            self.contained(),
        ensures
            self.rotated().rotated().rotated().rotated() == self,
    {
        let w = self.width;
        let h = self.height;
        let r1 = self.rotated();
        let r2 = r1.rotated();
        let r3 = r2.rotated();
        let r4 = r3.rotated();
        self.rotated_wf();
        r1.rotated_wf();
        r2.rotated_wf();
        r3.rotated_wf();
        assert forall|i: int| 0 <= i < AREA implies #[trigger] r4.cells[i] == self.cells[i] by {
            let x = i % (SIZE as int);
            let y = i / (SIZE as int);
            if x < w && y < h {
                self.rotated_at(x, y);
                r1.rotated_at(h - 1 - y, x);
                r2.rotated_at(w - 1 - x, h - 1 - y);
                r3.rotated_at(y, w - 1 - x);
                assert(r4.at(x, y) == r4.cells[i]);
                assert(self.at(x, y) == self.cells[i]);
                if let Some(v) = self.cells[i] {
                    T::four_turns(v);
                }
            }
        }
        assert(r4.cells =~= self.cells);
    }

    /// A quarter turn takes an occupied slot to the slot `turn_index`
    /// names, and turns its payload.
    pub proof fn rotated_slot(self, i: int)
        requires
            self.wf(),
            self.contained(),
            0 <= i < AREA,
            self.cells[i] is Some,
        ensures
            0 <= turn_index(i, self.height) < AREA,
            self.rotated().cells[turn_index(i, self.height)] == turned_slot(self.cells[i]),
            turn_source(turn_index(i, self.height), self.height) == i,
    {
        let x = i % (SIZE as int);
        let y = i / (SIZE as int);
        self.rotated_at(x, y);
        slot_coordinates(self.height - 1 - y, x);
    }

    /// An occupied slot of a pattern after a quarter turn comes from the
    /// slot `turn_source` names.
    pub proof fn rotated_source(self, d: int)
        requires
            self.wf(),
            0 <= d < AREA,
            self.rotated().cells[d] is Some,
        ensures
            0 <= turn_source(d, self.height) < AREA,
            self.rotated().cells[d] == turned_slot(self.cells[turn_source(d, self.height)]),
            turn_index(turn_source(d, self.height), self.height) == d,
    {
        slot_coordinates(d / (SIZE as int), self.height - 1 - d % (SIZE as int));
    }

    /// A move takes an occupied slot of the rectangle to the slot
    /// `move_index` names, if that slot lies in the frame.
    pub proof fn moved_slot(self, dx: int, dy: int, i: int)
        requires
            self.wf(),
            self.contained(),
            0 <= i < AREA,
            self.cells[i] is Some,
            0 <= i % (SIZE as int) + dx < SIZE,
            0 <= i / (SIZE as int) + dy < SIZE,
        ensures
            0 <= move_index(i, dx, dy) < AREA,
            self.shifted(dx, dy).cells[move_index(i, dx, dy)] == self.cells[i],
    {
        slot_coordinates(i % (SIZE as int) + dx, i / (SIZE as int) + dy);
    }

    /// An occupied slot of a moved pattern comes from the slot that lies
    /// as far back.
    pub proof fn moved_source(self, dx: int, dy: int, d: int)
        requires
            self.wf(),
            0 <= d < AREA,
            self.shifted(dx, dy).cells[d] is Some,
        ensures
            0 <= move_index(d, -dx, -dy) < AREA,
            0 <= d % (SIZE as int) - dx < SIZE,
            0 <= d / (SIZE as int) - dy < SIZE,
            self.shifted(dx, dy).cells[d] == self.cells[move_index(d, -dx, -dy)],
    {
        slot_coordinates(d % (SIZE as int) - dx, d / (SIZE as int) - dy);
    }

    /// How many distinct rotations a pattern has: one if a quarter turn
    /// leaves it unchanged, two if only a half turn does, four otherwise;
    /// and no rotation is listed twice.
    pub proof fn rotation_classes(self)
        requires
            self.wf(),
            self.contained(),
        ensures
            self.rotated() == self ==> self.rotations() == seq![self],
            self.rotated() != self && self.rotated().rotated() == self ==> self.rotations()
                == seq![self, self.rotated()],
            self.rotated().rotated() != self ==> self.rotations() == seq![
                self,
                self.rotated().rotated(),
                self.rotated(),
                self.rotated().rotated().rotated(),
            ],
            self.rotations().len() == 1 || self.rotations().len() == 2 || self.rotations().len()
                == 4,
            self.rotations().no_duplicates(),
    {
        let r1 = self.rotated();
        let r2 = r1.rotated();
        let r3 = r2.rotated();
        self.four_turns();
        let all = seq![self, r2, r1, r3];
        reveal_with_fuel(dedup, 5);
        assert(all.drop_last() =~= seq![self, r2, r1]);
        assert(all.drop_last().drop_last() =~= seq![self, r2]);
        assert(all.drop_last().drop_last().drop_last() =~= seq![self]);
        if r1 == self {
            assert(self.rotations() =~= seq![self]);
        } else if r2 == self {
            assert(self.rotations() =~= seq![self, r1]);
        } else {
            assert(self.rotations() =~= all);
        }
    }

    /// Each placement the pattern has is the pattern moved by an offset
    /// that keeps its rectangle inside the frame.
    pub proof fn translations_are_shifts(self, m: int) -> (o: (int, int))
        requires
            self.wf(),
            0 <= m < self.translations().len(),
        ensures
            0 <= o.0 <= SIZE - self.width,
            0 <= o.1 <= SIZE - self.height,
            self.translations()[m] == self.shifted(o.0, o.1),
    {
        let max_x = SIZE - self.width;
        let max_y = SIZE - self.height;
        assert((max_x + 1) * (max_y + 1) >= 0) by (nonlinear_arith)
            requires
                0 <= max_x,
                0 <= max_y,
        ;
        assert(0 <= m / (max_y + 1) <= max_x && 0 <= m % (max_y + 1) <= max_y)
            by (nonlinear_arith)
            requires
                0 <= m < (max_x + 1) * (max_y + 1),
                0 <= max_x,
                0 <= max_y,
        ;
        (m / (max_y + 1), m % (max_y + 1))
    }

    /// Each rotation the pattern has is the pattern after fewer than
    /// four quarter turns.
    pub proof fn rotations_are_turns(self, j: int) -> (turns: nat)
        requires
            0 <= j < self.rotations().len(),
        ensures
            turns < 4,
            self.rotations()[j] == self.turned_by(turns),
    {
        let all = seq![
            self,
            self.rotated().rotated(),
            self.rotated(),
            self.rotated().rotated().rotated(),
        ];
        let i = dedup_member(all, j);
        reveal_with_fuel(FigureView::turned_by, 4);
        if i == 0 {
            0
        } else if i == 1 {
            2
        } else if i == 2 {
            1
        } else {
            3
        }
    }

    /// A well-formed pattern stays well formed, and inside its
    /// rectangle if it was, however often it is turned.
    pub proof fn turned_by_wf(self, n: nat)
        requires
            self.wf(),
        ensures
            self.turned_by(n).wf(),
            self.contained() ==> self.turned_by(n).contained(),
            self.turned_by(n).rotatable == self.rotatable,
        decreases n,
    {
        if n > 0 {
            self.turned_by_wf((n - 1) as nat);
            self.turned_by((n - 1) as nat).rotated_wf();
        }
    }

    /// Every transformation of a pattern is a placement of it, and of
    /// the pattern unturned if it must keep its orientation.
    pub proof fn transformations_are_placements(self, k: int)
        requires
            self.wf(),
            0 <= k < self.transformations().len(),
        ensures
            self.transformations()[k].is_placement_of(self),
            !self.rotatable ==> exists|dx: int, dy: int|
                0 <= dx <= SIZE - self.width && 0 <= dy <= SIZE - self.height
                    && self.transformations()[k] == #[trigger] self.shifted(dx, dy),
    {
        if !self.rotatable {
            let o = self.translations_are_shifts(k);
            assert(self.turned_by(0) == self);
            assert(self.transformations()[k] == self.turned_by(0).shifted(o.0, o.1));
        } else {
            let place = |turn: Self| turn.translations();
            let w = flat_map_member(self.rotations(), place, k);
            let turns = self.rotations_are_turns(w.0);
            self.turned_by_wf(turns);
            let o = self.turned_by(turns).translations_are_shifts(w.1);
            assert(self.transformations()[k] == self.turned_by(turns).shifted(o.0, o.1));
        }
    }
}

} // verus!
