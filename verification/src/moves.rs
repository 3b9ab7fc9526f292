//! The moves of the puzzle and what it means to solve it.
//!
//! A state is a board together with the tools not yet used, in the
//! order they are kept in. A move picks one of these tools and one of
//! the ways to lay it on the frame; a solution is a sequence of such
//! choices that ends with the goal on the board.

use vstd::prelude::*;
use crate::board::Board;
use crate::figure::FigureView;
use crate::tool::{StateView, Tool, ToolView};

verus! {

/// `s` without its element at `i`, the last element taking its place.
pub open spec fn swap_removed<A>(s: Seq<A>, i: int) -> Seq<A> {
    s.update(i, s.last()).drop_last()
}

/// The choice made in a move: which of the tools that are left, and
/// which of the ways to lay it.
pub struct Choice {
    pub tool: int,
    pub way: int,
}

impl Choice {
    /// Whether this choice is tried before `other`: tools are tried in
    /// the order they are kept in, and the ways of a tool in the order
    /// its transformations are listed in.
    pub open spec fn comes_before(self, other: Choice) -> bool {
        self.tool < other.tool || (self.tool == other.tool && self.way < other.way)
    }
}

impl StateView {
    /// Whether the state has the tool and the tool has the way that the
    /// choice names.
    pub open spec fn is_move(self, choice: Choice) -> bool {
        0 <= choice.tool < self.tools.len() && 0 <= choice.way
            < self.tools[choice.tool].transformations().len()
    }

    /// The tool that the choice names, laid in the way it names.
    pub open spec fn action(self, choice: Choice) -> ToolView {
        self.tools[choice.tool].transformations()[choice.way]
    }

    /// The state after the move: the tool is taken out of the tools, the
    /// last tool moving to its place, and used on the board.
    pub open spec fn successor(self, choice: Choice) -> StateView {
        self.action(choice).apply(self.board, swap_removed(self.tools, choice.tool))
    }

    /// The state after the moves that the choices name, made one after
    /// the other.
    pub open spec fn after(self, choices: Seq<Choice>) -> StateView
        decreases choices.len(),
    {
        if choices.len() == 0 {
            self
        } else {
            self.after(choices.drop_last()).successor(choices.last())
        }
    }

    /// Whether each of the choices names a move of the state it is made
    /// in.
    pub open spec fn allows(self, choices: Seq<Choice>) -> bool
        decreases choices.len(),
    {
        choices.len() == 0 || (self.allows(choices.drop_last()) && self.after(
            choices.drop_last(),
        ).is_move(choices.last()))
    }

    /// What is written down of the moves: for each, the board it was
    /// made on and the tool as it was laid.
    pub open spec fn record(self, choices: Seq<Choice>) -> Seq<(FigureView<u8>, ToolView)> {
        Seq::new(
            choices.len(),
            |k: int|
                (self.after(choices.take(k)).board, self.after(choices.take(k)).action(choices[k])),
        )
    }
}

/// Whether the choices name moves from `start` that end with the board
/// `goal`.
pub open spec fn solves(start: StateView, goal: FigureView<u8>, choices: Seq<Choice>) -> bool {
    start.allows(choices) && start.after(choices).board == goal
}

/// Whether `a` is tried before `b` by a search that tries short
/// sequences first and, among sequences of one length, goes by the first
/// choice in which they differ.
pub open spec fn precedes(a: Seq<Choice>, b: Seq<Choice>) -> bool {
    a.len() < b.len() || (a.len() == b.len() && exists|k: int|
        0 <= k < a.len() && a.take(k) == b.take(k) && (#[trigger] a[k]).comes_before(b[k]))
}

/// Whether the choices are the solution that is tried before all
/// others.
pub open spec fn is_first_solution(
    start: StateView,
    goal: FigureView<u8>,
    choices: Seq<Choice>,
) -> bool {
    &&& solves(start, goal, choices)
    &&& forall|other: Seq<Choice>| #[trigger]
        solves(start, goal, other) ==> other == choices || precedes(choices, other)
}

/// The models of a solution trace.
pub open spec fn step_views(trace: Seq<(Board, Tool)>) -> Seq<(FigureView<u8>, ToolView)> {
    trace.map_values(|step: (Board, Tool)| (step.0@, step.1@))
}

/// How many moves a tool is good for: a lift leaves a patch behind that
/// can be used in turn.
pub open spec fn moves_in(tool: ToolView) -> nat {
    if tool is Lift {
        2
    } else {
        1
    }
}

/// An upper bound on the number of moves that can be made with `tools`.
pub open spec fn moves_left(tools: Seq<ToolView>) -> nat
    decreases tools.len(),
{
    if tools.len() == 0 {
        0
    } else {
        moves_left(tools.drop_last()) + moves_in(tools.last())
    }
}

/// Replacing a tool changes the bound by the difference of the two
/// tools.
pub proof fn moves_left_update(tools: Seq<ToolView>, i: int, tool: ToolView)
    requires
        0 <= i < tools.len(),
    ensures
        moves_left(tools.update(i, tool)) == moves_left(tools) - moves_in(tools[i]) + moves_in(tool),
    decreases tools.len(),
{
    let changed = tools.update(i, tool);
    if i == tools.len() - 1 {
        assert(changed.drop_last() =~= tools.drop_last());
    } else {
        moves_left_update(tools.drop_last(), i, tool);
        assert(changed.drop_last() =~= tools.drop_last().update(i, tool));
    }
}

/// Every move uses up at least one of the moves that are left.
pub proof fn successor_moves_left(state: StateView, choice: Choice)
    requires
        state.is_move(choice),
    ensures
        moves_left(state.successor(choice).tools) < moves_left(state.tools),
{
    let tools = state.tools;
    let rest = swap_removed(tools, choice.tool);
    moves_left_update(tools, choice.tool, tools.last());
    assert(moves_left(rest) == moves_left(tools) - moves_in(tools[choice.tool]));
    let action = state.action(choice);
    assert(action is Lift <==> tools[choice.tool] is Lift);
    if action is Lift {
        let next = state.successor(choice).tools;
        assert(next.drop_last() =~= rest);
    }
}

/// No sequence of moves is longer than the bound on the moves that its
/// first state allows: every tool is used at most once, and so is the
/// patch that a lift leaves behind.
pub proof fn moves_are_bounded(start: StateView, choices: Seq<Choice>)
    requires
        start.allows(choices),
    ensures
        choices.len() + moves_left(start.after(choices).tools) <= moves_left(start.tools),
    decreases choices.len(),
{
    if choices.len() > 0 {
        moves_are_bounded(start, choices.drop_last());
        successor_moves_left(start.after(choices.drop_last()), choices.last());
    }
}

/// Of two different sequences of choices, one is tried before the
/// other.
pub proof fn precedes_is_total(a: Seq<Choice>, b: Seq<Choice>)
    ensures
        a == b || precedes(a, b) || precedes(b, a),
    decreases a.len(),
{
    if a.len() == b.len() && a.len() > 0 {
        precedes_is_total(a.drop_last(), b.drop_last());
        if a.drop_last() == b.drop_last() {
            if a.last() == b.last() {
                assert(a =~= a.drop_last().push(a.last()));
                assert(b =~= b.drop_last().push(b.last()));
            } else if a.last().comes_before(b.last()) {
                assert(a.take(a.len() - 1) == b.take(a.len() - 1));
                assert(a[a.len() - 1].comes_before(b[a.len() - 1]));
            } else {
                assert(b.take(a.len() - 1) == a.take(a.len() - 1));
                assert(b[a.len() - 1].comes_before(a[a.len() - 1]));
            }
        } else if precedes(a.drop_last(), b.drop_last()) {
            precedes_grows(a.drop_last(), b.drop_last(), a.last(), b.last());
            assert(a =~= a.drop_last().push(a.last()));
            assert(b =~= b.drop_last().push(b.last()));
        } else {
            precedes_grows(b.drop_last(), a.drop_last(), b.last(), a.last());
            assert(a =~= a.drop_last().push(a.last()));
            assert(b =~= b.drop_last().push(b.last()));
        }
    } else if a.len() == b.len() {
        assert(a =~= b);
    }
}

/// A sequence that is tried before another of the same length stays
/// before it, whatever choices are put behind the two.
pub proof fn precedes_grows(a: Seq<Choice>, b: Seq<Choice>, x: Choice, y: Choice)
    requires
        a.len() == b.len(),
        precedes(a, b),
    ensures
        precedes(a.push(x), b.push(y)),
{
    let k = choose|k: int|
        0 <= k < a.len() && a.take(k) == b.take(k) && (#[trigger] a[k]).comes_before(b[k]);
    assert(a.push(x).take(k) =~= a.take(k));
    assert(b.push(y).take(k) =~= b.take(k));
    assert(a.push(x)[k].comes_before(b.push(y)[k]));
}

/// Putting an earlier choice behind a sequence gives a sequence that is
/// tried before the one with a later choice behind it.
pub proof fn precedes_by_last(a: Seq<Choice>, x: Choice, y: Choice)
    requires
        x.comes_before(y),
    ensures
        precedes(a.push(x), a.push(y)),
{
    let k = a.len() as int;
    assert(a.push(x).take(k) =~= a.push(y).take(k));
    assert(a.push(x)[k].comes_before(a.push(y)[k]));
}

/// Being tried before is transitive.
pub proof fn precedes_is_transitive(a: Seq<Choice>, b: Seq<Choice>, c: Seq<Choice>)
    requires
        precedes(a, b),
        precedes(b, c),
    ensures
        precedes(a, c),
{
    if a.len() == b.len() && b.len() == c.len() {
        let i = choose|k: int|
            0 <= k < a.len() && a.take(k) == b.take(k) && (#[trigger] a[k]).comes_before(b[k]);
        let j = choose|k: int|
            0 <= k < b.len() && b.take(k) == c.take(k) && (#[trigger] b[k]).comes_before(c[k]);
        if i < j {
            assert(b.take(j).take(i) =~= b.take(i));
            assert(c.take(j).take(i) =~= c.take(i));
            assert(b.take(j)[i] == c.take(j)[i]);
            assert(a.take(i) == c.take(i));
            assert(a[i].comes_before(c[i]));
        } else if j < i {
            assert(a.take(i).take(j) =~= a.take(j));
            assert(b.take(i).take(j) =~= b.take(j));
            assert(a.take(i)[j] == b.take(i)[j]);
            assert(a.take(j) == c.take(j));
            assert(a[j].comes_before(c[j]));
        } else {
            assert(a.take(i) == c.take(i));
            assert(a[i].comes_before(c[i]));
        }
    }
}

/// No sequence is tried before itself.
pub proof fn precedes_is_strict(a: Seq<Choice>)
    ensures
        !precedes(a, a),
{
}

/// There is at most one first solution.
pub proof fn first_solution_is_unique(
    start: StateView,
    goal: FigureView<u8>,
    a: Seq<Choice>,
    b: Seq<Choice>,
)
    requires
        is_first_solution(start, goal, a),
        is_first_solution(start, goal, b),
    ensures
        a == b,
{
    if a != b {
        assert(solves(start, goal, a) && solves(start, goal, b));
        assert(precedes(a, b));
        assert(precedes(b, a));
        precedes_is_transitive(a, b, a);
        precedes_is_strict(a);
    }
}

} // verus!
