//! The swap mask: two slots whose digits change places.

use vstd::prelude::*;
use crate::cell::{Mark, AREA, SIZE};
use vstd::pervasive::unreached;
use crate::figure::{try_into_array, views, FigureView, Shape};
use crate::notation::{parse_figure, stripped, ParserError};
use crate::symmetry::{move_index, turn_index, turn_source};

verus! {

/// Whether slot `i` of the mask is marked.
pub open spec fn marked(mask: FigureView<Mark>, i: int) -> bool {
    0 <= i < AREA && mask.cells[i] is Some
}

/// Whether `a` and `b` are the two marked slots of the mask.
pub open spec fn marks_are(mask: FigureView<Mark>, a: int, b: int) -> bool {
    &&& a != b
    &&& marked(mask, a)
    &&& marked(mask, b)
    &&& forall|j: int| marked(mask, j) ==> j == a || j == b
}

/// Whether the mask has exactly two marked slots.
pub open spec fn has_two_marks(mask: FigureView<Mark>) -> bool {
    exists|a: int, b: int| #[trigger] marks_are(mask, a, b)
}

/// The two marked slots, the earlier one first.
pub open spec fn swap_slots(mask: FigureView<Mark>) -> (int, int) {
    choose|p: (int, int)| p.0 < p.1 && marks_are(mask, p.0, p.1)
}

/// The swap mask that the whitespace-free text `t` denotes, or the
/// reason why it denotes none: that of the pattern, or the count of its
/// marks.
pub open spec fn parse_swap(t: Seq<char>) -> Result<FigureView<Mark>, ParserError> {
    match parse_figure::<Mark>(t) {
        Err(e) => Err(e),
        Ok(mask) => if has_two_marks(mask) {
            Ok(mask)
        } else {
            Err(ParserError::SwapCount)
        },
    }
}

/// The two marked slots of a mask are determined by it.
pub proof fn swap_slots_unique(mask: FigureView<Mark>, a: int, b: int)
    requires
        marks_are(mask, a, b),
        a < b,
    ensures
        swap_slots(mask) == (a, b),
        has_two_marks(mask),
{
    let p = swap_slots(mask);
    assert(marks_are(mask, (a, b).0, (a, b).1));
    assert(p.0 < p.1 && marks_are(mask, p.0, p.1));
}

/// A mask with two marks names them, the earlier one first.
pub proof fn swap_slots_marked(mask: FigureView<Mark>)
    requires
        has_two_marks(mask),
    ensures
        swap_slots(mask).0 < swap_slots(mask).1,
        marks_are(mask, swap_slots(mask).0, swap_slots(mask).1),
{
    let (a, b) = choose|a: int, b: int| #[trigger] marks_are(mask, a, b);
    if a < b {
        swap_slots_unique(mask, a, b);
    } else {
        assert(marks_are(mask, b, a));
        swap_slots_unique(mask, b, a);
    }
}

/// A mask has two marks exactly if the list of its marks has two
/// entries, which then are the two marked slots.
pub proof fn marks_listed(mask: FigureView<Mark>, slots: Seq<usize>)
    requires
        mask.lists_holders(slots, Mark),
    ensures
        has_two_marks(mask) <==> slots.len() == 2,
        slots.len() == 2 ==> swap_slots(mask) == (slots[0] as int, slots[1] as int) && marks_are(
            mask,
            slots[0] as int,
            slots[1] as int,
        ),
{
    assert forall|i: int| marked(mask, i) == mask.holds(i, Mark) by {
        if marked(mask, i) {
            let v = mask.cells[i]->0;
            assert(v == Mark);
        }
    }
    if slots.len() == 2 {
        assert(mask.holds(slots[0] as int, Mark));
        assert(mask.holds(slots[1] as int, Mark));
        assert forall|j: int| marked(mask, j) implies j == slots[0] || j == slots[1] by {
            assert(mask.holds(j, Mark));
        }
        swap_slots_unique(mask, slots[0] as int, slots[1] as int);
    }
    if has_two_marks(mask) {
        swap_slots_marked(mask);
        let (a, b) = swap_slots(mask);
        assert(mask.holds(a, Mark) && mask.holds(b, Mark));
        let ka = choose|k: int| 0 <= k < slots.len() && slots[k] == a as usize;
        let kb = choose|k: int| 0 <= k < slots.len() && slots[k] == b as usize;
        if slots.len() >= 3 {
            assert(mask.holds(slots[0] as int, Mark));
            assert(mask.holds(slots[1] as int, Mark));
            assert(mask.holds(slots[2] as int, Mark));
            assert(marked(mask, slots[0] as int) && marked(mask, slots[1] as int) && marked(
                mask,
                slots[2] as int,
            ));
        }
    }
}

/// A quarter turn keeps the two marks.
pub proof fn rotated_has_two_marks(mask: FigureView<Mark>)
    requires
        mask.wf(),
        mask.contained(),
        has_two_marks(mask),
    ensures
        has_two_marks(mask.rotated()),
{
    swap_slots_marked(mask);
    let (a, b) = swap_slots(mask);
    let ta = turn_index(a, mask.height);
    let tb = turn_index(b, mask.height);
    mask.rotated_slot(a);
    mask.rotated_slot(b);
    assert(marked(mask.rotated(), ta));
    assert(marked(mask.rotated(), tb));
    assert forall|d: int| marked(mask.rotated(), d) implies d == ta || d == tb by {
        mask.rotated_source(d);
        assert(marked(mask, turn_source(d, mask.height)));
    }
    assert(marks_are(mask.rotated(), ta, tb));
}

/// A move inside the frame keeps the two marks.
pub proof fn shifted_has_two_marks(mask: FigureView<Mark>, dx: int, dy: int)
    requires
        mask.wf(),
        mask.contained(),
        has_two_marks(mask),
        0 <= dx <= SIZE - mask.width,
        0 <= dy <= SIZE - mask.height,
    ensures
        has_two_marks(mask.shifted(dx, dy)),
{
    swap_slots_marked(mask);
    let (a, b) = swap_slots(mask);
    let ta = move_index(a, dx, dy);
    let tb = move_index(b, dx, dy);
    mask.moved_slot(dx, dy, a);
    mask.moved_slot(dx, dy, b);
    assert(marked(mask.shifted(dx, dy), ta));
    assert(marked(mask.shifted(dx, dy), tb));
    assert forall|d: int| marked(mask.shifted(dx, dy), d) implies d == ta || d == tb by {
        mask.moved_source(dx, dy, d);
        assert(marked(mask, move_index(d, -dx, -dy)));
    }
    assert(marks_are(mask.shifted(dx, dy), ta, tb));
}

/// Turning a swap mask any number of times gives a swap mask.
pub proof fn turned_has_two_marks(mask: FigureView<Mark>, n: nat)
    requires
        mask.wf(),
        mask.contained(),
        has_two_marks(mask),
    ensures
        mask.turned_by(n).wf(),
        mask.turned_by(n).contained(),
        has_two_marks(mask.turned_by(n)),
    decreases n,
{
    if n > 0 {
        turned_has_two_marks(mask, (n - 1) as nat);
        mask.turned_by((n - 1) as nat).rotated_wf();
        rotated_has_two_marks(mask.turned_by((n - 1) as nat));
    }
}

/// Every placement of a swap mask is a swap mask.
pub proof fn placement_has_two_marks(mask: FigureView<Mark>, placed: FigureView<Mark>)
    requires
        mask.wf(),
        mask.contained(),
        has_two_marks(mask),
        placed.is_placement_of(mask),
    ensures
        placed.wf(),
        placed.contained(),
        has_two_marks(placed),
{
    let (turns, dx, dy) = choose|turns: nat, dx: int, dy: int|
        #![trigger mask.turned_by(turns).shifted(dx, dy)]
        turns < 4 && 0 <= dx <= SIZE - mask.turned_by(turns).width && 0 <= dy <= SIZE
            - mask.turned_by(turns).height && placed == mask.turned_by(turns).shifted(dx, dy);
    turned_has_two_marks(mask, turns);
    mask.turned_by(turns).shifted_wf(dx, dy);
    shifted_has_two_marks(mask.turned_by(turns), dx, dy);
}

/// A tool that exchanges the digits under its two marks.
#[derive(Debug, PartialEq, Eq, Hash)]
pub struct Swap {
    shape: Shape,
}

impl Clone for Swap {
    fn clone(&self) -> (r: Self)
        ensures
            r == *self,
    {
        *self
    }
}

impl Copy for Swap {

}

impl View for Swap {
    type V = FigureView<Mark>;

    closed spec fn view(&self) -> FigureView<Mark> {
        self.shape@
    }
}

/// The models of a sequence of swap masks.
pub open spec fn swap_views(masks: Seq<Swap>) -> Seq<FigureView<Mark>> {
    masks.map_values(|m: Swap| m@)
}

impl Swap {
    /// What holds of every swap mask: it lies inside its rectangle and
    /// has exactly two marks.
    #[verifier::type_invariant]
    pub open spec fn inv(&self) -> bool {
        &&& self@.wf()
        &&& self@.contained()
        &&& has_two_marks(self@)
    }

    /// Reads a swap mask from its notation: a pattern of `#` and dots
    /// with exactly two `#`.
    pub fn from_str(string: &str) -> (r: Result<Self, ParserError>)
        ensures
            r matches Ok(mask) ==> parse_swap(stripped(string@)) == Ok::<
                FigureView<Mark>,
                ParserError,
            >(mask@),
            r matches Err(e) ==> parse_swap(stripped(string@)) == Err::<
                FigureView<Mark>,
                ParserError,
            >(e),
    {
        let shape = match Shape::from_str(string) {
            Ok(shape) => shape,
            Err(e) => {
                return Err(e);
            },
        };
        let marks = shape.slots_holding(&Mark);
        proof {
            use_type_invariant(&shape);
            marks_listed(shape@, marks@);
        }
        match try_into_array::<2>(&marks) {
            Err(_) => {
                return Err(ParserError::SwapCount);
            },
            Ok(_) => {},
        }
        Ok(Swap { shape })
    }

    /// Returns the notation of the mask.
    pub fn render(&self) -> (r: String)
        ensures
            r@ == self@.text(),
    {
        self.shape.render()
    }

    /// Whether two masks agree in every slot, in the flag and in the
    /// rectangle.
    pub fn equals(&self, other: &Self) -> (r: bool)
        ensures
            r == (self@ == other@),
    {
        self.shape.equals(&other.shape)
    }

    /// Returns every way the mask may be laid on the frame.
    pub fn all_transformations(&self) -> (r: Vec<Self>)
        ensures
            swap_views(r@) == self@.transformations(),
    {
        proof {
            use_type_invariant(self);
        }
        let shapes = self.shape.all_transformations();
        let mut out: Vec<Self> = Vec::new();
        let mut i: usize = 0;
        while i < shapes.len()
            invariant
                i <= shapes.len(),
                self.inv(),
                views(shapes@) == self@.transformations(),
                out@.len() == i,
                forall|j: int| 0 <= j < i ==> (#[trigger] out@[j])@ == shapes@[j]@,
            decreases shapes.len() - i,
        {
            proof {
                assert(views(shapes@)[i as int] == shapes@[i as int]@);
                self@.transformations_are_placements(i as int);
                placement_has_two_marks(self@, shapes@[i as int]@);
            }
            out.push(Swap { shape: shapes[i] });
            i += 1;
        }
        assert(swap_views(out@) =~= views(shapes@));
        out
    }

    /// The indices of the two marked slots, the earlier one first.
    pub fn swap_idxs(&self) -> (r: [usize; 2])
        ensures
            r@[0] == swap_slots(self@).0,
            r@[1] == swap_slots(self@).1,
            r@[0] < r@[1] < AREA,
            marks_are(self@, r@[0] as int, r@[1] as int),
    {
        proof {
            use_type_invariant(self);
        }
        let marks = self.shape.slots_holding(&Mark);
        proof {
            marks_listed(self@, marks@);
        }
        match try_into_array::<2>(&marks) {
            Ok(found) => found,
            Err(_) => unreached(),
        }
    }
}

} // verus!
