//! The five kinds of tools.

use vstd::prelude::*;
use vstd::string::StringExecFns;
use crate::board::{copied, holed, lifted, pushed, stamped, swapped, Board};
use crate::cell::{Direction, Mark};
use crate::copy_paste::{copy_paste_views, CopyPaste, CopyPasteCell};
use crate::figure::{views, FigureView, Piece, Push, Shape};
use crate::swap::{swap_views, Swap};

verus! {

/// A tool of the puzzle. Each can be used once.
#[derive(Clone, Copy, Debug, PartialEq, Eq, Hash)]
pub enum Tool {
    /// Moves digits one step.
    Push(Push),
    /// Takes digits off the board and turns them into a patch.
    Lift(Shape),
    /// Stamps digits onto the board.
    Piece(Piece),
    /// Copies one digit to other slots.
    Copy(CopyPaste),
    /// Exchanges two digits.
    Swap(Swap),
}

/// Mathematical model of a tool.
pub enum ToolView {
    Push(FigureView<Direction>),
    Lift(FigureView<Mark>),
    Piece(FigureView<u8>),
    Copy(FigureView<CopyPasteCell>),
    Swap(FigureView<Mark>),
}

impl View for Tool {
    type V = ToolView;

    open spec fn view(&self) -> ToolView {
        match *self {
            Tool::Push(f) => ToolView::Push(f@),
            Tool::Lift(f) => ToolView::Lift(f@),
            Tool::Piece(f) => ToolView::Piece(f@),
            Tool::Copy(f) => ToolView::Copy(f@),
            Tool::Swap(f) => ToolView::Swap(f@),
        }
    }
}

/// The models of a sequence of tools.
pub open spec fn tool_views(tools: Seq<Tool>) -> Seq<ToolView> {
    tools.map_values(|t: Tool| t@)
}

/// A board together with the tools that may still be used, in the
/// order they are kept in.
pub struct StateView {
    pub board: FigureView<u8>,
    pub tools: Seq<ToolView>,
}

impl ToolView {
    /// The name of the tool's kind and, in round brackets, the notation
    /// of its pattern.
    pub open spec fn text(self) -> Seq<char> {
        match self {
            ToolView::Push(f) => seq!['P', 'u', 's', 'h', '('] + f.text() + seq![')'],
            ToolView::Lift(f) => seq!['L', 'i', 'f', 't', '('] + f.text() + seq![')'],
            ToolView::Piece(f) => seq!['P', 'i', 'e', 'c', 'e', '('] + f.text() + seq![')'],
            ToolView::Copy(f) => seq!['C', 'o', 'p', 'y', '('] + f.text() + seq![')'],
            ToolView::Swap(f) => seq!['S', 'w', 'a', 'p', '('] + f.text() + seq![')'],
        }
    }

    /// Every way the tool may be laid on the frame, each of the tool's
    /// own kind.
    pub open spec fn transformations(self) -> Seq<ToolView> {
        match self {
            ToolView::Push(f) => f.transformations().map_values(
                |g: FigureView<Direction>| ToolView::Push(g),
            ),
            ToolView::Lift(f) => f.transformations().map_values(
                |g: FigureView<Mark>| ToolView::Lift(g),
            ),
            ToolView::Piece(f) => f.transformations().map_values(
                |g: FigureView<u8>| ToolView::Piece(g),
            ),
            ToolView::Copy(f) => f.transformations().map_values(
                |g: FigureView<CopyPasteCell>| ToolView::Copy(g),
            ),
            ToolView::Swap(f) => f.transformations().map_values(
                |g: FigureView<Mark>| ToolView::Swap(g),
            ),
        }
    }

    /// What using the tool, laid as it is, makes of `board`, when `rest`
    /// are the tools left over: the board changes as the kind of tool
    /// says, and a lift adds the patch it produced to the tools.
    pub open spec fn apply(self, board: FigureView<u8>, rest: Seq<ToolView>) -> StateView {
        match self {
            ToolView::Push(f) => StateView { board: pushed(board, f), tools: rest },
            ToolView::Lift(f) => StateView {
                board: holed(board, f),
                tools: rest.push(ToolView::Piece(lifted(board, f))),
            },
            ToolView::Piece(f) => StateView { board: stamped(board, f), tools: rest },
            ToolView::Copy(f) => StateView { board: copied(board, f), tools: rest },
            ToolView::Swap(f) => StateView { board: swapped(board, f), tools: rest },
        }
    }
}

impl Tool {
    /// Returns the name of the tool's kind and, in round brackets, the
    /// notation of its pattern.
    pub fn render(&self) -> (r: String)
        ensures
            r@ == self@.text(),
    {
        proof {
            reveal_strlit("Push");
            reveal_strlit("Lift");
            reveal_strlit("Piece");
            reveal_strlit("Copy");
            reveal_strlit("Swap");
        }
        let (name, pattern) = match self {
            Tool::Push(fig) => ("Push", fig.render()),
            Tool::Lift(fig) => ("Lift", fig.render()),
            Tool::Piece(fig) => ("Piece", fig.render()),
            Tool::Copy(fig) => ("Copy", fig.render()),
            Tool::Swap(fig) => ("Swap", fig.render()),
        };
        let mut out = String::new();
        out.append(name);
        out.push('(');
        out.append(pattern.as_str());
        out.push(')');
        assert(out@ =~= self@.text());
        out
    }

    /// Whether two tools are of one kind and their patterns agree.
    pub fn equals(&self, other: &Self) -> (r: bool)
        ensures
            r == (self@ == other@),
    {
        match (self, other) {
            (Tool::Push(a), Tool::Push(b)) => a.equals(b),
            (Tool::Lift(a), Tool::Lift(b)) => a.equals(b),
            (Tool::Piece(a), Tool::Piece(b)) => a.equals(b),
            (Tool::Copy(a), Tool::Copy(b)) => a.equals(b),
            (Tool::Swap(a), Tool::Swap(b)) => a.equals(b),
            _ => false,
        }
    }

    /// Uses the tool, laid as it is, on `board`. Returns the new board
    /// and the tools left: `rest`, and behind them the patch if the tool
    /// was a lift.
    pub fn use_on(&self, board: &Board, rest: Vec<Tool>) -> (r: (Board, Vec<Tool>))
        ensures
            (StateView { board: r.0@, tools: tool_views(r.1@) }) == self@.apply(
                board@,
                tool_views(rest@),
            ),
    {
        match self {
            Tool::Push(fig) => (board.apply_push(fig), rest),
            Tool::Lift(fig) => {
                let (next_board, piece) = board.apply_lift(fig);
                let mut next_tools = rest;
                next_tools.push(Tool::Piece(piece));
                assert(tool_views(next_tools@) =~= tool_views(rest@).push(ToolView::Piece(piece@)));
                (next_board, next_tools)
            },
            Tool::Piece(fig) => (board.apply_piece(fig), rest),
            Tool::Copy(fig) => (board.apply_copy(fig), rest),
            Tool::Swap(fig) => (board.apply_swap(fig), rest),
        }
    }

    /// Returns every way the tool may be laid on the frame.
    pub fn all_transformations(&self) -> (r: Vec<Tool>)
        ensures
            tool_views(r@) == self@.transformations(),
    {
        let mut out: Vec<Tool> = Vec::new();
        match self {
            Tool::Push(fig) => {
                let laid = fig.all_transformations();
                let mut i: usize = 0;
                while i < laid.len()
                    invariant
                        i <= laid.len(),
                        out@.len() == i,
                        forall|j: int| 0 <= j < i ==> (#[trigger] out@[j])@ == ToolView::Push(laid@[j]@),
                    decreases laid.len() - i,
                {
                    out.push(Tool::Push(laid[i]));
                    i += 1;
                }
                assert(tool_views(out@) =~= views(laid@).map_values(
                    |g: FigureView<Direction>| ToolView::Push(g),
                ));
            },
            Tool::Lift(fig) => {
                let laid = fig.all_transformations();
                let mut i: usize = 0;
                while i < laid.len()
                    invariant
                        i <= laid.len(),
                        out@.len() == i,
                        forall|j: int| 0 <= j < i ==> (#[trigger] out@[j])@ == ToolView::Lift(laid@[j]@),
                    decreases laid.len() - i,
                {
                    out.push(Tool::Lift(laid[i]));
                    i += 1;
                }
                assert(tool_views(out@) =~= views(laid@).map_values(
                    |g: FigureView<Mark>| ToolView::Lift(g),
                ));
            },
            Tool::Piece(fig) => {
                let laid = fig.all_transformations();
                let mut i: usize = 0;
                while i < laid.len()
                    invariant
                        i <= laid.len(),
                        out@.len() == i,
                        forall|j: int| 0 <= j < i ==> (#[trigger] out@[j])@ == ToolView::Piece(laid@[j]@),
                    decreases laid.len() - i,
                {
                    out.push(Tool::Piece(laid[i]));
                    i += 1;
                }
                assert(tool_views(out@) =~= views(laid@).map_values(
                    |g: FigureView<u8>| ToolView::Piece(g),
                ));
            },
            Tool::Copy(fig) => {
                let laid = fig.all_transformations();
                let mut i: usize = 0;
                while i < laid.len()
                    invariant
                        i <= laid.len(),
                        out@.len() == i,
                        forall|j: int| 0 <= j < i ==> (#[trigger] out@[j])@ == ToolView::Copy(laid@[j]@),
                    decreases laid.len() - i,
                {
                    out.push(Tool::Copy(laid[i]));
                    i += 1;
                }
                assert(tool_views(out@) =~= copy_paste_views(laid@).map_values(
                    |g: FigureView<CopyPasteCell>| ToolView::Copy(g),
                ));
            },
            Tool::Swap(fig) => {
                let laid = fig.all_transformations();
                let mut i: usize = 0;
                while i < laid.len()
                    invariant
                        i <= laid.len(),
                        out@.len() == i,
                        forall|j: int| 0 <= j < i ==> (#[trigger] out@[j])@ == ToolView::Swap(laid@[j]@),
                    decreases laid.len() - i,
                {
                    out.push(Tool::Swap(laid[i]));
                    i += 1;
                }
                assert(tool_views(out@) =~= swap_views(laid@).map_values(
                    |g: FigureView<Mark>| ToolView::Swap(g),
                ));
            },
        }
        out
    }
}

} // verus!
