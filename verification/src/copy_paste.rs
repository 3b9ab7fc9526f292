//! The copy mask: one slot to read a digit from, any number to write
//! it to.

use vstd::prelude::*;
use crate::cell::{InbentoCell, AREA, SIZE};
use vstd::pervasive::unreached;
use crate::figure::{try_into_array, views, Figure, FigureView};
use crate::notation::{parse_figure, stripped, ParserError};
use crate::symmetry::{move_index, turn_index, turn_source};

verus! {

/// Payload of a copy mask, written `C` and `V`.
#[derive(Clone, Copy, Debug, PartialEq, Eq, Hash, Structural)]
pub enum CopyPasteCell {
    Copy,
    Paste,
}

impl InbentoCell for CopyPasteCell {
    open spec fn valid(&self) -> bool {
        true
    }

    open spec fn glyph(&self) -> char {
        match *self {
            CopyPasteCell::Copy => 'C',
            CopyPasteCell::Paste => 'V',
        }
    }

    open spec fn parsed(c: char) -> Option<Self> {
        if c == 'C' {
            Some(CopyPasteCell::Copy)
        } else if c == 'V' {
            Some(CopyPasteCell::Paste)
        } else {
            None
        }
    }

    open spec fn turned(&self) -> Self {
        *self
    }

    fn to_char(&self) -> (c: char) {
        match self {
            CopyPasteCell::Copy => 'C',
            CopyPasteCell::Paste => 'V',
        }
    }

    fn parse(c: char) -> (r: Result<Self, ()>) {
        match c {
            'C' => Ok(CopyPasteCell::Copy),
            'V' => Ok(CopyPasteCell::Paste),
            _ => Err(()),
        }
    }

    fn rotate(&self) -> (r: Self) {
        *self
    }

    fn same(&self, other: &Self) -> (r: bool) {
        *self == *other
    }

    proof fn parse_inverts_glyph(c: char, v: Self) {
    }

    proof fn glyph_is_plain(v: Self) {
    }

    proof fn turned_is_valid(v: Self) {
    }

    proof fn four_turns(v: Self) {
    }
}

/// Whether slot `i` of the mask is the one to copy from.
pub open spec fn copy_at(mask: FigureView<CopyPasteCell>, i: int) -> bool {
    0 <= i < AREA && mask.cells[i] == Some(CopyPasteCell::Copy)
}

/// Whether the mask has exactly one slot to copy from.
pub open spec fn has_one_copy(mask: FigureView<CopyPasteCell>) -> bool {
    exists|i: int| #[trigger] copy_at(mask, i) && forall|j: int| copy_at(mask, j) ==> j == i
}

/// The slot to copy from.
pub open spec fn copy_slot(mask: FigureView<CopyPasteCell>) -> int {
    choose|i: int| copy_at(mask, i)
}

/// The copy mask that the whitespace-free text `t` denotes, or the
/// reason why it denotes none: that of the pattern, or the count of its
/// copy marks.
pub open spec fn parse_copy_paste(t: Seq<char>) -> Result<FigureView<CopyPasteCell>, ParserError> {
    match parse_figure::<CopyPasteCell>(t) {
        Err(e) => Err(e),
        Ok(mask) => if has_one_copy(mask) {
            Ok(mask)
        } else {
            Err(ParserError::CopyCount)
        },
    }
}

/// The slot to copy from is the only one with a copy mark.
pub proof fn copy_slot_unique(mask: FigureView<CopyPasteCell>, i: int)
    requires
        has_one_copy(mask),
        copy_at(mask, i),
    ensures
        i == copy_slot(mask),
        copy_at(mask, copy_slot(mask)),
{
}

/// A mask has one slot to copy from exactly if the list of its copy
/// marks has one entry, which then is that slot.
pub proof fn copy_marks_listed(mask: FigureView<CopyPasteCell>, slots: Seq<usize>)
    requires
        mask.lists_holders(slots, CopyPasteCell::Copy),
    ensures
        has_one_copy(mask) <==> slots.len() == 1,
        slots.len() == 1 ==> copy_slot(mask) == slots[0] && copy_at(mask, slots[0] as int),
{
    assert forall|i: int| copy_at(mask, i) == mask.holds(i, CopyPasteCell::Copy) by {}
    if slots.len() == 1 {
        assert(mask.holds(slots[0] as int, CopyPasteCell::Copy));
        assert(copy_at(mask, slots[0] as int));
        assert forall|j: int| copy_at(mask, j) implies j == slots[0] by {
            assert(mask.holds(j, CopyPasteCell::Copy));
        }
        copy_slot_unique(mask, slots[0] as int);
    }
    if has_one_copy(mask) {
        let i = copy_slot(mask);
        assert(mask.holds(i, CopyPasteCell::Copy));
        if slots.len() >= 2 {
            assert(mask.holds(slots[0] as int, CopyPasteCell::Copy));
            assert(mask.holds(slots[1] as int, CopyPasteCell::Copy));
            assert(copy_at(mask, slots[0] as int) && copy_at(mask, slots[1] as int));
        }
    }
}

/// A quarter turn keeps the one slot to copy from.
pub proof fn rotated_has_one_copy(mask: FigureView<CopyPasteCell>)
    requires
        mask.wf(),
        mask.contained(),
        has_one_copy(mask),
    ensures
        has_one_copy(mask.rotated()),
{
    let i = copy_slot(mask);
    mask.rotated_slot(i);
    assert(copy_at(mask.rotated(), turn_index(i, mask.height)));
    assert forall|d: int| copy_at(mask.rotated(), d) implies d == turn_index(i, mask.height) by {
        mask.rotated_source(d);
        assert(copy_at(mask, turn_source(d, mask.height)));
    }
}

/// A move inside the frame keeps the one slot to copy from.
pub proof fn shifted_has_one_copy(mask: FigureView<CopyPasteCell>, dx: int, dy: int)
    requires
        mask.wf(),
        mask.contained(),
        has_one_copy(mask),
        0 <= dx <= SIZE - mask.width,
        0 <= dy <= SIZE - mask.height,
    ensures
        has_one_copy(mask.shifted(dx, dy)),
{
    let i = copy_slot(mask);
    mask.moved_slot(dx, dy, i);
    assert(copy_at(mask.shifted(dx, dy), move_index(i, dx, dy)));
    assert forall|d: int| copy_at(mask.shifted(dx, dy), d) implies d == move_index(i, dx, dy) by {
        mask.moved_source(dx, dy, d);
        assert(copy_at(mask, move_index(d, -dx, -dy)));
    }
}

/// Every placement of a copy mask is a copy mask.
pub proof fn placement_has_one_copy(
    mask: FigureView<CopyPasteCell>,
    placed: FigureView<CopyPasteCell>,
)
    requires
        mask.wf(),
        mask.contained(),
        has_one_copy(mask),
        placed.is_placement_of(mask),
    ensures
        placed.wf(),
        placed.contained(),
        has_one_copy(placed),
{
    let (turns, dx, dy) = choose|turns: nat, dx: int, dy: int|
        #![trigger mask.turned_by(turns).shifted(dx, dy)]
        turns < 4 && 0 <= dx <= SIZE - mask.turned_by(turns).width && 0 <= dy
            <= SIZE - mask.turned_by(turns).height && placed == mask.turned_by(
            turns,
        ).shifted(dx, dy);
    turned_has_one_copy(mask, turns);
    mask.turned_by(turns).shifted_wf(dx, dy);
    shifted_has_one_copy(mask.turned_by(turns), dx, dy);
}

/// Turning a copy mask any number of times gives a copy mask.
pub proof fn turned_has_one_copy(mask: FigureView<CopyPasteCell>, n: nat)
    requires
        mask.wf(),
        mask.contained(),
        has_one_copy(mask),
    ensures
        mask.turned_by(n).wf(),
        mask.turned_by(n).contained(),
        has_one_copy(mask.turned_by(n)),
    decreases n,
{
    if n > 0 {
        turned_has_one_copy(mask, (n - 1) as nat);
        mask.turned_by((n - 1) as nat).rotated_wf();
        rotated_has_one_copy(mask.turned_by((n - 1) as nat));
    }
}

/// A tool that reads the digit under its copy mark and writes it to
/// every slot under a paste mark.
#[derive(Debug, PartialEq, Eq, Hash)]
pub struct CopyPaste {
    shape: Figure<CopyPasteCell>,
}

impl Clone for CopyPaste {
    fn clone(&self) -> (r: Self)
        ensures
            r == *self,
    {
        *self
    }
}

impl Copy for CopyPaste {

}

impl View for CopyPaste {
    type V = FigureView<CopyPasteCell>;

    closed spec fn view(&self) -> FigureView<CopyPasteCell> {
        self.shape@
    }
}

/// The models of a sequence of copy masks.
pub open spec fn copy_paste_views(masks: Seq<CopyPaste>) -> Seq<FigureView<CopyPasteCell>> {
    masks.map_values(|m: CopyPaste| m@)
}

impl CopyPaste {
    /// What holds of every copy mask: it lies inside its rectangle and
    /// has exactly one slot to copy from.
    #[verifier::type_invariant]
    pub open spec fn inv(&self) -> bool {
        &&& self@.wf()
        &&& self@.contained()
        &&& has_one_copy(self@)
    }

    /// Reads a copy mask from its notation: a pattern of `C`, `V` and
    /// dots with exactly one `C`.
    pub fn from_str(string: &str) -> (r: Result<Self, ParserError>)
        ensures
            r matches Ok(mask) ==> parse_copy_paste(stripped(string@)) == Ok::<
                FigureView<CopyPasteCell>,
                ParserError,
            >(mask@),
            r matches Err(e) ==> parse_copy_paste(stripped(string@)) == Err::<
                FigureView<CopyPasteCell>,
                ParserError,
            >(e),
    {
        let shape = match Figure::<CopyPasteCell>::from_str(string) {
            Ok(shape) => shape,
            Err(e) => {
                return Err(e);
            },
        };
        let marks = shape.slots_holding(&CopyPasteCell::Copy);
        proof {
            use_type_invariant(&shape);
            copy_marks_listed(shape@, marks@);
        }
        match try_into_array::<1>(&marks) {
            Err(_) => {
                return Err(ParserError::CopyCount);
            },
            Ok(_) => {},
        }
        Ok(CopyPaste { shape })
    }

    /// All nine slots in row-major order.
    pub(crate) fn layout(&self) -> (r: [Option<CopyPasteCell>; AREA])
        ensures
            r@ == self@.cells,
            self.inv(),
    {
        proof {
            use_type_invariant(self);
        }
        self.shape.layout()
    }

    /// Returns the notation of the mask.
    pub fn render(&self) -> (r: String)
        ensures
            r@ == self@.text(),
    {
        self.shape.render()
    }

    /// Whether two masks agree in every slot, in the flag and in the
    /// rectangle.
    pub fn equals(&self, other: &Self) -> (r: bool)
        ensures
            r == (self@ == other@),
    {
        self.shape.equals(&other.shape)
    }

    /// Returns every way the mask may be laid on the frame.
    pub fn all_transformations(&self) -> (r: Vec<Self>)
        ensures
            copy_paste_views(r@) == self@.transformations(),
    {
        proof {
            use_type_invariant(self);
        }
        let shapes = self.shape.all_transformations();
        let mut out: Vec<Self> = Vec::new();
        let mut i: usize = 0;
        while i < shapes.len()
            invariant
                i <= shapes.len(),
                self.inv(),
                views(shapes@) == self@.transformations(),
                out@.len() == i,
                forall|j: int| 0 <= j < i ==> (#[trigger] out@[j])@ == shapes@[j]@,
            decreases shapes.len() - i,
        {
            proof {
                assert(views(shapes@)[i as int] == shapes@[i as int]@);
                self@.transformations_are_placements(i as int);
                placement_has_one_copy(self@, shapes@[i as int]@);
            }
            out.push(CopyPaste { shape: shapes[i] });
            i += 1;
        }
        assert(copy_paste_views(out@) =~= views(shapes@));
        out
    }

    /// The index of the slot to copy from.
    pub fn copy_idx(&self) -> (r: usize)
        ensures
            r == copy_slot(self@),
            copy_at(self@, r as int),
    {
        proof {
            use_type_invariant(self);
        }
        let marks = self.shape.slots_holding(&CopyPasteCell::Copy);
        proof {
            copy_marks_listed(self@, marks@);
        }
        match try_into_array::<1>(&marks) {
            Ok(found) => found[0],
            Err(_) => unreached(),
        }
    }
}

} // verus!
