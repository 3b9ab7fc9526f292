//! Breadth-first search for the first sequence of moves that turns one
//! board into another.
//!
//! Two states with the same board and the same tools in another order
//! are different states: the search may visit both.

use std::collections::HashMap;
use vstd::prelude::*;
use vstd::slice::slice_to_vec;
use crate::board::Board;
use crate::cell::AREA;
use crate::moves::{
    is_first_solution, moves_are_bounded, moves_left, precedes, precedes_by_last, precedes_grows,
    precedes_is_transitive, solves, step_views, swap_removed, Choice,
};
use crate::tool::{tool_views, StateView, Tool};

verus! {

broadcast use vstd::std_specs::hash::group_hash_axioms;

/// Returns, for every index of `list`, the element there together with
/// the list without it: the last element has moved to its place.
pub fn swap_remove_each<T: Copy>(list: &[T]) -> (r: Vec<(T, Vec<T>)>)
    ensures
        r@.len() == list@.len(),
        forall|i: int|
            0 <= i < list@.len() ==> (#[trigger] r@[i]).0 == list@[i] && r@[i].1@ == swap_removed(
                list@,
                i,
            ),
{
    let mut out: Vec<(T, Vec<T>)> = Vec::new();
    let mut idx: usize = 0;
    while idx < list.len()
        invariant
            idx <= list@.len(),
            out@.len() == idx,
            forall|i: int|
                0 <= i < idx ==> (#[trigger] out@[i]).0 == list@[i] && out@[i].1@ == swap_removed(
                    list@,
                    i,
                ),
        decreases list@.len() - idx,
    {
        let mut rest = slice_to_vec(list);
        let elem = rest.swap_remove(idx);
        out.push((elem, rest));
        idx += 1;
    }
    out
}

/// Whether two lists hold the same tools in the same order.
pub fn same_tools(left: &Vec<Tool>, right: &Vec<Tool>) -> (r: bool)
    ensures
        r == (tool_views(left@) == tool_views(right@)),
{
    if left.len() != right.len() {
        return false;
    }
    let mut i: usize = 0;
    while i < left.len()
        invariant
            i <= left@.len(),
            left@.len() == right@.len(),
            forall|j: int| 0 <= j < i ==> left@[j]@ == right@[j]@,
        decreases left@.len() - i,
    {
        if !left[i].equals(&right[i]) {
            assert(tool_views(left@)[i as int] != tool_views(right@)[i as int]);
            return false;
        }
        i += 1;
    }
    assert(tool_views(left@) =~= tool_views(right@));
    true
}

/// A number that boards with the same slots share: the slots read as
/// digits of a number in base eleven.
pub open spec fn board_code(cells: Seq<Option<u8>>, n: int) -> int
    decreases n,
{
    if n <= 0 {
        0
    } else {
        let digit = match cells[n - 1] {
            Some(v) => v + 1,
            None => 0,
        };
        board_code(cells, n - 1) * 11 + digit
    }
}

/// Eleven to the power of `n`.
pub open spec fn eleven_to(n: int) -> int
    decreases n,
{
    if n <= 0 {
        1
    } else {
        eleven_to(n - 1) * 11
    }
}

/// Returns the code of a board.
pub fn code_of(board: &Board) -> (r: u64)
    ensures
        r == board_code(board@.cells, AREA as int),
{
    let cells = board.layout();
    let mut code: u64 = 0;
    let mut i: usize = 0;
    proof {
        reveal_with_fuel(eleven_to, 10);
    }
    while i < AREA
        invariant
            i <= AREA,
            cells@ == board@.cells,
            board@.wf(),
            code == board_code(cells@, i as int),
            code < eleven_to(i as int),
            eleven_to(AREA as int) == 2357947691,
            forall|k: int| 0 <= k <= AREA ==> 0 < #[trigger] eleven_to(k) <= eleven_to(AREA as int),
        decreases AREA - i,
    {
        let digit: u64 = match cells[i] {
            Some(v) => v as u64 + 1,
            None => 0,
        };
        assert(eleven_to(i + 1) == eleven_to(i as int) * 11);
        code = code * 11 + digit;
        i += 1;
    }
    code
}

/// A state the search has reached, and the move that first led to it.
struct Node {
    board: Board,
    tools: Vec<Tool>,
    /// Index of the state the move was made from; meaningless for the
    /// first state.
    parent: usize,
    /// The tool as it was laid; `None` for the first state.
    action: Option<Tool>,
    /// The choices that led from the first state to this one.
    path: Ghost<Seq<Choice>>,
}

impl Node {
    spec fn state(self) -> StateView {
        StateView { board: self.board@, tools: tool_views(self.tools@) }
    }
}

/// Number of moves that led from the first state to state `j`.
spec fn depth(nodes: Seq<Node>, j: int) -> nat {
    nodes[j].path@.len()
}

/// State `j` was reached from an earlier state by the move it records.
spec fn linked(nodes: Seq<Node>, j: int) -> bool {
    let parent = nodes[nodes[j].parent as int];
    &&& nodes[j].parent < j
    &&& nodes[j].path@.len() > 0
    &&& nodes[j].path@.drop_last() == parent.path@
    &&& nodes[j].action matches Some(action) && action@ == parent.state().action(
        nodes[j].path@.last(),
    )
}

/// The states form a tree of moves rooted in `start`: each is what the
/// choices on its path lead to, and no state occurs twice.
spec fn is_tree(nodes: Seq<Node>, start: StateView) -> bool {
    &&& nodes.len() > 0
    &&& nodes[0].path@.len() == 0
    &&& forall|j: int|
        0 <= j < nodes.len() ==> start.allows((#[trigger] nodes[j]).path@) && start.after(
            nodes[j].path@,
        ) == nodes[j].state()
    &&& forall|j: int| 0 < j < nodes.len() ==> #[trigger] linked(nodes, j)
    &&& forall|i: int, j: int|
        0 <= i < j < nodes.len() ==> (#[trigger] nodes[i]).state() != (#[trigger] nodes[j]).state()
}

/// The code of the board of state `m`.
spec fn code_at(nodes: Seq<Node>, m: int) -> u64 {
    board_code(nodes[m].board@.cells, AREA as int) as u64
}

/// The map lists, under the code of each board, the states with a
/// board of that code, and nothing else.
spec fn indexed(nodes: Seq<Node>, seen: Map<u64, Vec<usize>>) -> bool {
    &&& forall|key: u64, b: int|
        seen.contains_key(key) && 0 <= b < seen[key]@.len() ==> (#[trigger] seen[key]@[b])
            < nodes.len() && code_at(nodes, seen[key]@[b] as int) == key
    &&& forall|m: int|
        0 <= m < nodes.len() ==> seen.contains_key(#[trigger] code_at(nodes, m)) && seen[code_at(
            nodes,
            m,
        )]@.contains(m as usize)
}

/// `state` is among the states, at most `bound` moves from the first.
spec fn reached(nodes: Seq<Node>, state: StateView, bound: nat) -> bool {
    exists|m: int|
        0 <= m < nodes.len() && (#[trigger] nodes[m]).state() == state && depth(nodes, m) <= bound
}

/// Every move from state `j` leads to a state that is among the
/// states, at most one move further from the first.
spec fn expanded(nodes: Seq<Node>, j: int) -> bool {
    forall|choice: Choice|
        #![trigger nodes[j].state().successor(choice)]
        nodes[j].state().is_move(choice) ==> reached(
            nodes,
            nodes[j].state().successor(choice),
            depth(nodes, j) + 1,
        )
}

/// The path of state `j` is tried before every other sequence of
/// choices that leads to the state.
spec fn least(nodes: Seq<Node>, start: StateView, j: int) -> bool {
    forall|choices: Seq<Choice>|
        #![trigger start.after(choices)]
        start.allows(choices) && start.after(choices) == nodes[j].state() ==> choices
            == nodes[j].path@ || precedes(nodes[j].path@, choices)
}

/// The states stand in the order in which their paths are tried, and
/// each path is the first that leads to its state.
spec fn in_order(nodes: Seq<Node>, start: StateView) -> bool {
    &&& forall|i: int, j: int|
        0 <= i < j < nodes.len() ==> precedes((#[trigger] nodes[i]).path@, (#[trigger] nodes[j]).path@)
    &&& forall|j: int| 0 <= j < nodes.len() ==> #[trigger] least(nodes, start, j)
}

/// `more` starts with the states of `nodes`.
spec fn extends(nodes: Seq<Node>, more: Seq<Node>) -> bool {
    &&& nodes.len() <= more.len()
    &&& forall|j: int| 0 <= j < nodes.len() ==> #[trigger] more[j] == nodes[j]
}

/// A state that was reached stays reached when further states are
/// added.
proof fn reached_kept(nodes: Seq<Node>, more: Seq<Node>, state: StateView, bound: nat)
    requires
        extends(nodes, more),
        reached(nodes, state, bound),
    ensures
        reached(more, state, bound),
{
    let m = choose|m: int|
        0 <= m < nodes.len() && (#[trigger] nodes[m]).state() == state && depth(nodes, m) <= bound;
    assert(more[m].state() == state);
}

/// A state that was expanded stays expanded when further states are
/// added.
proof fn expanded_kept(nodes: Seq<Node>, more: Seq<Node>, j: int)
    requires
        extends(nodes, more),
        0 <= j < nodes.len(),
        expanded(nodes, j),
    ensures
        expanded(more, j),
{
    assert forall|choice: Choice|
        #![trigger more[j].state().successor(choice)]
        more[j].state().is_move(choice) implies reached(
        more,
        more[j].state().successor(choice),
        depth(more, j) + 1,
    ) by {
        assert(nodes[j].state().is_move(choice));
        reached_kept(nodes, more, nodes[j].state().successor(choice), depth(nodes, j) + 1);
    }
}

/// Looks a state up among the states reached.
fn find(
    nodes: &Vec<Node>,
    seen: &HashMap<u64, Vec<usize>>,
    board: &Board,
    tools: &Vec<Tool>,
) -> (r: Option<usize>)
    requires
        indexed(nodes@, seen@),
    ensures
        r matches Some(m) ==> m < nodes@.len() && nodes@[m as int].state() == (StateView {
            board: board@,
            tools: tool_views(tools@),
        }),
        r is None ==> forall|m: int|
            0 <= m < nodes@.len() ==> (#[trigger] nodes@[m]).state() != (StateView {
                board: board@,
                tools: tool_views(tools@),
            }),
{
    let key = code_of(board);
    let count = nodes.len();
    let ghost target = StateView { board: board@, tools: tool_views(tools@) };
    match seen.get(&key) {
        None => {
            assert forall|m: int| 0 <= m < nodes@.len() implies (#[trigger] nodes@[m]).state()
                != target by {
                assert(seen@.contains_key(code_at(nodes@, m)));
            }
            None
        },
        Some(bucket) => {
            let mut b: usize = 0;
            while b < bucket.len()
                invariant
                    b <= bucket@.len(),
                    count == nodes@.len(),
                    indexed(nodes@, seen@),
                    seen@.contains_key(key),
                    seen@[key] == *bucket,
                    key == board_code(board@.cells, AREA as int),
                    target == (StateView { board: board@, tools: tool_views(tools@) }),
                    forall|k: int|
                        0 <= k < b ==> nodes@[(#[trigger] bucket@[k]) as int].state() != target,
                decreases bucket@.len() - b,
            {
                let m = bucket[b];
                assert(seen@[key]@[b as int] < nodes@.len());
                let node = &nodes[m];
                if node.board.equals(board) && same_tools(&node.tools, tools) {
                    return Some(m);
                }
                b += 1;
            }
            assert forall|m: int| 0 <= m < nodes@.len() implies (#[trigger] nodes@[m]).state()
                != target by {
                if nodes@[m].state() == target {
                    assert(code_at(nodes@, m) == key);
                    let k = choose|k: int| 0 <= k < bucket@.len() && bucket@[k] == m as usize;
                    assert(nodes@[bucket@[k] as int].state() != target);
                }
            }
            None
        },
    }
}

/// `state` is among the states.
spec fn present(nodes: Seq<Node>, state: StateView) -> bool {
    exists|m: int| 0 <= m < nodes.len() && (#[trigger] nodes[m]).state() == state
}

/// Records the state that a move from state `parent` leads to, unless
/// it is among the states already.
fn visit(
    nodes: &mut Vec<Node>,
    seen: &mut HashMap<u64, Vec<usize>>,
    parent: usize,
    Ghost(choice): Ghost<Choice>,
    action: Tool,
    board: Board,
    tools: Vec<Tool>,
    Ghost(start): Ghost<StateView>,
)
    requires
        is_tree(old(nodes)@, start),
        indexed(old(nodes)@, old(seen)@),
        parent < old(nodes)@.len(),
        old(nodes)@[parent as int].state().is_move(choice),
        action@ == old(nodes)@[parent as int].state().action(choice),
        (StateView { board: board@, tools: tool_views(tools@) }) == old(nodes)@[parent as int].state().successor(
            choice,
        ),
    ensures
        is_tree(final(nodes)@, start),
        indexed(final(nodes)@, final(seen)@),
        extends(old(nodes)@, final(nodes)@),
        final(nodes)@.len() <= old(nodes)@.len() + 1,
        final(nodes)@.len() == old(nodes)@.len() ==> present(
            old(nodes)@,
            StateView { board: board@, tools: tool_views(tools@) },
        ),
        final(nodes)@.len() > old(nodes)@.len() ==> final(nodes)@.last().parent == parent
            && final(nodes)@.last().path@ == old(nodes)@[parent as int].path@.push(choice)
            && final(nodes)@.last().state() == (StateView {
            board: board@,
            tools: tool_views(tools@),
        }),
{
    let ghost before = nodes@;
    let ghost target = StateView { board: board@, tools: tool_views(tools@) };
    match find(nodes, seen, &board, &tools) {
        Some(m) => {
            assert(nodes@[m as int].state() == target);
        },
        None => {
            let idx = nodes.len();
            let key = code_of(&board);
            let ghost path = nodes@[parent as int].path@.push(choice);
            nodes.push(Node { board, tools, parent, action: Some(action), path: Ghost(path) });
            let mut bucket = match seen.remove(&key) {
                Some(bucket) => bucket,
                None => Vec::new(),
            };
            let ghost old_bucket = bucket@;
            bucket.push(idx);
            seen.insert(key, bucket);
            proof {
                let after = nodes@;
                assert(extends(before, after));
                assert(after[idx as int].state() == target);
                assert(path.drop_last() =~= before[parent as int].path@);
                assert forall|j: int| 0 <= j < after.len() implies start.allows(
                    (#[trigger] after[j]).path@,
                ) && start.after(after[j].path@) == after[j].state() by {
                    if j < idx {
                        assert(after[j] == before[j]);
                    } else {
                        assert(after[parent as int] == before[parent as int]);
                    }
                }
                assert forall|j: int| 0 < j < after.len() implies #[trigger] linked(after, j) by {
                    if j < idx {
                        assert(linked(before, j));
                        assert(after[j] == before[j]);
                        assert(after[before[j].parent as int] == before[before[j].parent as int]);
                    } else {
                        assert(after[parent as int] == before[parent as int]);
                    }
                }
                assert forall|i: int, j: int| 0 <= i < j < after.len() implies (
                #[trigger] after[i]).state() != (#[trigger] after[j]).state() by {
                    assert(after[i] == before[i]);
                    if j < idx {
                        assert(after[j] == before[j]);
                    }
                }
                assert(after[0] == before[0]);
                assert forall|k: u64, b: int|
                    seen@.contains_key(k) && 0 <= b < seen@[k]@.len() implies (
                #[trigger] seen@[k]@[b]) < after.len() && code_at(after, seen@[k]@[b] as int)
                    == k by {
                    if k == key {
                        if b < old_bucket.len() {
                            assert(old(seen)@.contains_key(key));
                            assert(old(seen)@[key]@[b] == seen@[k]@[b]);
                            assert(after[old_bucket[b] as int] == before[old_bucket[b] as int]);
                        }
                    } else {
                        assert(old(seen)@.contains_key(k));
                        assert(old(seen)@[k]@[b] == seen@[k]@[b]);
                        assert(after[seen@[k]@[b] as int] == before[seen@[k]@[b] as int]);
                    }
                }
                assert forall|m: int| 0 <= m < after.len() implies seen@.contains_key(
                    #[trigger] code_at(after, m),
                ) && seen@[code_at(after, m)]@.contains(m as usize) by {
                    if m < idx {
                        assert(after[m] == before[m]);
                        let k = code_at(before, m);
                        assert(old(seen)@.contains_key(k));
                        let b = choose|b: int|
                            0 <= b < old(seen)@[k]@.len() && old(seen)@[k]@[b] == m as usize;
                        assert(seen@[k]@[b] == m as usize);
                    } else {
                        assert(seen@[key]@[old_bucket.len() as int] == idx);
                    }
                }
            }
        },
    }
}

/// The search is at state `head`; the states from there up to
/// `level_end` are `d` moves from the first state, the later states one
/// move more, and the earlier ones no more than `d`.
spec fn in_levels(nodes: Seq<Node>, head: int, level_end: int, d: nat) -> bool {
    &&& 0 <= head <= level_end <= nodes.len()
    &&& forall|j: int| 0 <= j < head ==> #[trigger] depth(nodes, j) <= d
    &&& forall|j: int| head <= j < level_end ==> #[trigger] depth(nodes, j) == d
    &&& forall|j: int| level_end <= j < nodes.len() ==> #[trigger] depth(nodes, j) == d + 1
}

/// Each of the states one move further than `head` was reached from
/// an earlier state than `head`, or from `head` by a choice tried before
/// `next`.
spec fn behind(nodes: Seq<Node>, head: int, level_end: int, next: Choice) -> bool {
    forall|j: int|
        level_end <= j < nodes.len() ==> (#[trigger] nodes[j]).parent < head || (nodes[j].parent
            == head && nodes[j].path@.last().comes_before(next))
}

/// A sequence of choices that the start allows leads to one of the
/// states, as long as the states it passes have been expanded, and to
/// one that the search reached with no more moves.
proof fn stays_among(nodes: Seq<Node>, start: StateView, head: int, choices: Seq<Choice>) -> (q:
    int)
    requires
        is_tree(nodes, start),
        0 <= head <= nodes.len(),
        forall|j: int| 0 <= j < head ==> #[trigger] expanded(nodes, j),
        head < nodes.len() ==> forall|j: int|
            0 <= j < nodes.len() && #[trigger] depth(nodes, j) < depth(nodes, head) ==> j < head,
        head < nodes.len() ==> choices.len() <= depth(nodes, head),
        start.allows(choices),
    ensures
        0 <= q < nodes.len(),
        nodes[q].state() == start.after(choices),
        depth(nodes, q) <= choices.len(),
    decreases choices.len(),
{
    if choices.len() == 0 {
        0
    } else {
        let p = stays_among(nodes, start, head, choices.drop_last());
        assert(p < head);
        assert(expanded(nodes, p));
        let from = nodes[p].state();
        assert(from.is_move(choices.last()));
        assert(reached(nodes, from.successor(choices.last()), depth(nodes, p) + 1));
        choose|m: int|
            0 <= m < nodes.len() && (#[trigger] nodes[m]).state() == start.after(choices) && depth(
                nodes,
                m,
            ) <= depth(nodes, p) + 1
    }
}

/// A state that is reached for the first time, by choice `choice` from
/// state `head`, stands behind all states in the order in which paths
/// are tried, and its path is the first that leads to it.
proof fn new_state_in_order(
    nodes: Seq<Node>,
    more: Seq<Node>,
    start: StateView,
    head: int,
    level_end: int,
    d: nat,
    choice: Choice,
)
    requires
        is_tree(nodes, start),
        is_tree(more, start),
        in_order(nodes, start),
        in_levels(nodes, head, level_end, d),
        head < level_end,
        behind(nodes, head, level_end, choice),
        forall|j: int| 0 <= j < head ==> #[trigger] expanded(nodes, j),
        forall|other: Choice|
            #![trigger nodes[head].state().successor(other)]
            other.comes_before(choice) && nodes[head].state().is_move(other) ==> reached(
                nodes,
                nodes[head].state().successor(other),
                d + 1,
            ),
        extends(nodes, more),
        more.len() == nodes.len() + 1,
        more.last().parent == head,
        more.last().path@ == nodes[head].path@.push(choice),
    ensures
        in_order(more, start),
{
    let m = nodes.len() as int;
    let path = more[m].path@;
    let here = nodes[head].path@;
    assert(here.len() == d) by {
        assert(depth(nodes, head) == d);
    }
    assert forall|i: int, j: int| 0 <= i < j < more.len() implies precedes(
        (#[trigger] more[i]).path@,
        (#[trigger] more[j]).path@,
    ) by {
        assert(more[i] == nodes[i]);
        if j < m {
            assert(more[j] == nodes[j]);
        } else if i < level_end {
            assert(depth(nodes, i) <= d);
        } else {
            assert(depth(nodes, i) == d + 1);
            assert(linked(nodes, i));
            let parent = nodes[i].parent as int;
            let before = nodes[parent].path@;
            let last = nodes[i].path@.last();
            assert(nodes[i].path@ =~= before.push(last));
            if parent < head {
                assert(precedes(nodes[parent].path@, nodes[head].path@));
                precedes_grows(before, here, last, choice);
            } else {
                precedes_by_last(here, last, choice);
            }
        }
    }
    assert forall|j: int| 0 <= j < more.len() implies #[trigger] least(more, start, j) by {
        if j < m {
            assert(more[j] == nodes[j]);
            assert(least(nodes, start, j));
        } else {
            assert forall|choices: Seq<Choice>|
                #![trigger start.after(choices)]
                start.allows(choices) && start.after(choices) == more[m].state() implies choices
                == path || precedes(path, choices) by {
                first_path_is_least(nodes, more, start, head, level_end, d, choice, choices);
            }
        }
    }
}

/// The path by which a state is reached for the first time is tried
/// before any other sequence of choices that leads to the state.
proof fn first_path_is_least(
    nodes: Seq<Node>,
    more: Seq<Node>,
    start: StateView,
    head: int,
    level_end: int,
    d: nat,
    choice: Choice,
    choices: Seq<Choice>,
)
    requires
        is_tree(nodes, start),
        is_tree(more, start),
        in_order(nodes, start),
        in_levels(nodes, head, level_end, d),
        head < level_end,
        forall|j: int| 0 <= j < head ==> #[trigger] expanded(nodes, j),
        forall|other: Choice|
            #![trigger nodes[head].state().successor(other)]
            other.comes_before(choice) && nodes[head].state().is_move(other) ==> reached(
                nodes,
                nodes[head].state().successor(other),
                d + 1,
            ),
        extends(nodes, more),
        more.len() == nodes.len() + 1,
        more.last().path@ == nodes[head].path@.push(choice),
        start.allows(choices),
        start.after(choices) == more.last().state(),
    ensures
        choices == more.last().path@ || precedes(more.last().path@, choices),
{
    let m = nodes.len() as int;
    let path = more[m].path@;
    let here = nodes[head].path@;
    let target = more[m].state();
    assert(depth(nodes, head) == d);
    assert forall|j: int| 0 <= j < nodes.len() implies (#[trigger] nodes[j]).state() != target by {
        assert(more[j] == nodes[j]);
    }
    if choices.len() <= d {
        let q = stays_among(nodes, start, head, choices);
        assert(nodes[q].state() == target);
    } else if choices.len() == d + 1 {
        let front = choices.drop_last();
        let last = choices.last();
        assert(choices =~= front.push(last));
        let q = stays_among(nodes, start, head, front);
        let from = nodes[q].state();
        assert(from.is_move(last));
        assert(from.successor(last) == target);
        if q < head {
            assert(expanded(nodes, q));
            assert(reached(nodes, from.successor(last), depth(nodes, q) + 1));
        } else {
            assert(depth(nodes, q) == d);
            assert(least(nodes, start, q));
            assert(start.after(front) == nodes[q].state());
            assert(front == nodes[q].path@ || precedes(nodes[q].path@, front));
            if q == head {
                if front == here {
                    if last.comes_before(choice) {
                        assert(reached(nodes, from.successor(last), d + 1));
                    } else if last == choice {
                    } else {
                        assert(choice.comes_before(last));
                        precedes_by_last(here, choice, last);
                    }
                } else {
                    precedes_grows(here, front, choice, last);
                }
            } else {
                assert(precedes(nodes[head].path@, nodes[q].path@));
                if front != nodes[q].path@ {
                    precedes_is_transitive(here, nodes[q].path@, front);
                }
                precedes_grows(here, front, choice, last);
            }
        }
    }
}

/// Makes every move that state `head` allows, and records the states
/// that were not reached before.
fn expand(
    nodes: &mut Vec<Node>,
    seen: &mut HashMap<u64, Vec<usize>>,
    head: usize,
    Ghost(start): Ghost<StateView>,
    Ghost(level_end): Ghost<int>,
    Ghost(d): Ghost<nat>,
)
    requires
        is_tree(old(nodes)@, start),
        indexed(old(nodes)@, old(seen)@),
        in_order(old(nodes)@, start),
        in_levels(old(nodes)@, head as int, level_end, d),
        head < level_end,
        forall|j: int| 0 <= j < head ==> #[trigger] expanded(old(nodes)@, j),
        forall|j: int| level_end <= j < old(nodes)@.len() ==> (#[trigger] old(nodes)@[j]).parent < head,
    ensures
        is_tree(final(nodes)@, start),
        indexed(final(nodes)@, final(seen)@),
        in_order(final(nodes)@, start),
        in_levels(final(nodes)@, head as int, level_end, d),
        extends(old(nodes)@, final(nodes)@),
        forall|j: int| 0 <= j <= head ==> #[trigger] expanded(final(nodes)@, j),
        forall|j: int|
            level_end <= j < final(nodes)@.len() ==> (#[trigger] final(nodes)@[j]).parent <= head,
{
    let ghost initial = nodes@;
    let ghost here = nodes@[head as int].state();
    let board = nodes[head].board;
    let tools = slice_to_vec(nodes[head].tools.as_slice());
    let options = swap_remove_each(tools.as_slice());
    let mut ti: usize = 0;
    while ti < options.len()
        invariant
            is_tree(nodes@, start),
            indexed(nodes@, seen@),
            in_order(nodes@, start),
            in_levels(nodes@, head as int, level_end, d),
            head < level_end,
            extends(initial, nodes@),
            head < initial.len(),
            initial[head as int].state() == here,
            board@ == here.board,
            tool_views(tools@) == here.tools,
            options@.len() == tools@.len(),
            forall|i: int|
                0 <= i < tools@.len() ==> (#[trigger] options@[i]).0 == tools@[i] && options@[i].1@
                    == swap_removed(tools@, i),
            ti <= options@.len(),
            forall|j: int| 0 <= j < head ==> #[trigger] expanded(nodes@, j),
            behind(nodes@, head as int, level_end, Choice { tool: ti as int, way: 0 }),
            forall|other: Choice|
                #![trigger here.successor(other)]
                other.comes_before(Choice { tool: ti as int, way: 0 }) && here.is_move(other)
                    ==> reached(nodes@, here.successor(other), d + 1),
        decreases options@.len() - ti,
    {
        let tool = options[ti].0;
        let actions = tool.all_transformations();
        let mut ai: usize = 0;
        while ai < actions.len()
            invariant
                is_tree(nodes@, start),
                indexed(nodes@, seen@),
                in_order(nodes@, start),
                in_levels(nodes@, head as int, level_end, d),
                head < level_end,
                extends(initial, nodes@),
                head < initial.len(),
                initial[head as int].state() == here,
                board@ == here.board,
                tool_views(tools@) == here.tools,
                options@.len() == tools@.len(),
                forall|i: int|
                    0 <= i < tools@.len() ==> (#[trigger] options@[i]).0 == tools@[i]
                        && options@[i].1@ == swap_removed(tools@, i),
                ti < options@.len(),
                tool_views(actions@) == here.tools[ti as int].transformations(),
                ai <= actions@.len(),
                forall|j: int| 0 <= j < head ==> #[trigger] expanded(nodes@, j),
                behind(nodes@, head as int, level_end, Choice { tool: ti as int, way: ai as int }),
                forall|other: Choice|
                    #![trigger here.successor(other)]
                    other.comes_before(Choice { tool: ti as int, way: ai as int }) && here.is_move(
                        other,
                    ) ==> reached(nodes@, here.successor(other), d + 1),
            decreases actions@.len() - ai,
        {
            let action = actions[ai];
            let rest = slice_to_vec(options[ti].1.as_slice());
            let (next_board, next_tools) = action.use_on(&board, rest);
            let ghost before = nodes@;
            let ghost choice = Choice { tool: ti as int, way: ai as int };
            let ghost target = StateView { board: next_board@, tools: tool_views(next_tools@) };
            proof {
                assert(tool_views(rest@) =~= swap_removed(here.tools, ti as int));
                assert(tool_views(actions@)[ai as int] == action@);
                assert(here.is_move(choice));
                assert(target == here.successor(choice));
                assert(before[head as int] == initial[head as int]);
            }
            visit(nodes, seen, head, Ghost(choice), action, next_board, next_tools, Ghost(start));
            proof {
                let after = nodes@;
                let next = Choice { tool: ti as int, way: ai + 1 };
                assert(depth(before, head as int) == d);
                if after.len() > before.len() {
                    new_state_in_order(before, after, start, head as int, level_end, d, choice);
                    assert(depth(after, before.len() as int) == d + 1);
                    assert(reached(after, target, d + 1));
                } else {
                    assert(after =~= before);
                    let m = choose|m: int|
                        0 <= m < before.len() && (#[trigger] before[m]).state() == target;
                    assert(depth(before, m) <= d + 1);
                    assert(reached(after, target, d + 1));
                }
                assert(in_levels(after, head as int, level_end, d)) by {
                    assert forall|j: int| 0 <= j < before.len() implies depth(after, j) == depth(
                        before,
                        j,
                    ) by {
                        assert(after[j] == before[j]);
                    }
                }
                assert forall|j: int| 0 <= j < head implies #[trigger] expanded(after, j) by {
                    expanded_kept(before, after, j);
                }
                assert forall|j: int| level_end <= j < after.len() implies (
                #[trigger] after[j]).parent < head || (after[j].parent == head
                    && after[j].path@.last().comes_before(next)) by {
                    if j < before.len() {
                        assert(after[j] == before[j]);
                    }
                }
                assert forall|other: Choice|
                    #![trigger here.successor(other)]
                    other.comes_before(next) && here.is_move(other) implies reached(
                    after,
                    here.successor(other),
                    d + 1,
                ) by {
                    if other != choice {
                        assert(other.comes_before(choice));
                        reached_kept(before, after, here.successor(other), d + 1);
                    }
                }
            }
            ai += 1;
        }
        proof {
            let next = Choice { tool: ti + 1, way: 0 };
            assert forall|other: Choice|
                #![trigger here.successor(other)]
                other.comes_before(next) && here.is_move(other) implies reached(
                nodes@,
                here.successor(other),
                d + 1,
            ) by {
                assert(other.comes_before(Choice { tool: ti as int, way: actions@.len() as int }));
            }
        }
        ti += 1;
    }
    proof {
        assert(nodes@[head as int] == initial[head as int]);
        assert(depth(nodes@, head as int) == d);
        assert forall|choice: Choice|
            #![trigger nodes@[head as int].state().successor(choice)]
            nodes@[head as int].state().is_move(choice) implies reached(
            nodes@,
            nodes@[head as int].state().successor(choice),
            depth(nodes@, head as int) + 1,
        ) by {
            assert(choice.comes_before(Choice { tool: options@.len() as int, way: 0 }));
        }
    }
}

/// Returns the moves that led from the first state to state `index`,
/// each with the board it was made on.
fn rebuild_path(nodes: &Vec<Node>, index: usize, Ghost(start): Ghost<StateView>) -> (r: Vec<
    (Board, Tool),
>)
    requires
        is_tree(nodes@, start),
        index < nodes@.len(),
    ensures
        step_views(r@) == start.record(nodes@[index as int].path@),
{
    let ghost choices = nodes@[index as int].path@;
    let ghost record = start.record(choices);
    let mut path: Vec<(Board, Tool)> = Vec::new();
    let mut at = index;
    assert(choices.take(choices.len() as int) =~= choices);
    while at != 0
        invariant
            is_tree(nodes@, start),
            at < nodes@.len(),
            index < nodes@.len(),
            choices == nodes@[index as int].path@,
            record == start.record(choices),
            path@.len() <= choices.len(),
            nodes@[at as int].path@ == choices.take(choices.len() - path@.len()),
            forall|i: int|
                0 <= i < path@.len() ==> ((#[trigger] path@[i]).0@, path@[i].1@) == record[choices.len()
                    - 1 - i],
        decreases at,
    {
        assert(linked(nodes@, at as int));
        let node = &nodes[at];
        let parent = node.parent;
        let ghost n = choices.len() - path@.len();
        let ghost before = path@;
        proof {
            assert(choices.take(n).drop_last() =~= choices.take(n - 1));
            assert(choices.take(n).last() == choices[n - 1]);
        }
        if let Some(action) = node.action {
            path.push((nodes[parent].board, action));
        }
        proof {
            assert forall|i: int| 0 <= i < path@.len() implies ((#[trigger] path@[i]).0@, path@[i].1@)
                == record[choices.len() - 1 - i] by {
                if i < before.len() {
                    assert(path@[i] == before[i]);
                }
            }
        }
        at = parent;
    }
    let mut trace: Vec<(Board, Tool)> = Vec::new();
    let mut k: usize = path.len();
    while k > 0
        invariant
            k <= path@.len(),
            trace@.len() == path@.len() - k,
            forall|i: int| 0 <= i < trace@.len() ==> #[trigger] trace@[i] == path@[path@.len() - 1 - i],
        decreases k,
    {
        k -= 1;
        trace.push(path[k]);
    }
    proof {
        assert(choices.take(choices.len() - path@.len()).len() == 0);
        assert(step_views(trace@) =~= record);
    }
    trace
}

/// Searches for the first sequence of moves that turns `board` into
/// `goal`, each tool of `tools` being used at most once.
///
/// A move takes one of the tools that are left, lays it on the frame in
/// one of the ways its pattern allows, and uses it on the board; a lift
/// leaves the patch it produced behind as a further tool. The goal is
/// met when the board equals `goal` in every slot, in its flag and in
/// its rectangle, whatever tools are left.
///
/// The search tries short sequences of moves before long ones; among
/// sequences of one length it tries the tools in the order they are
/// kept in, and the ways to lay a tool in the order its transformations
/// are listed in. It returns the moves of the first sequence that meets
/// the goal, each as the board before the move and the tool as it was
/// laid; the last move produces `goal`. It returns an error if, and only
/// if, no sequence of moves meets the goal.
pub fn solve(board: &Board, goal: &Board, tools: &[Tool]) -> (r: Result<Vec<(Board, Tool)>, ()>)
    ensures
        r matches Ok(trace) ==> exists|choices: Seq<Choice>|
            #[trigger] is_first_solution(
                StateView { board: board@, tools: tool_views(tools@) },
                goal@,
                choices,
            ) && step_views(trace@) == (StateView {
                board: board@,
                tools: tool_views(tools@),
            }).record(choices),
        r matches Ok(trace) ==> trace@.len() <= moves_left(tool_views(tools@)),
        r is Err ==> forall|choices: Seq<Choice>|
            !#[trigger] solves(
                StateView { board: board@, tools: tool_views(tools@) },
                goal@,
                choices,
            ),
{
    let ghost start = StateView { board: board@, tools: tool_views(tools@) };
    let mut nodes: Vec<Node> = Vec::new();
    let mut seen: HashMap<u64, Vec<usize>> = HashMap::new();
    nodes.push(
        Node {
            board: *board,
            tools: slice_to_vec(tools),
            parent: 0,
            action: None,
            path: Ghost(Seq::empty()),
        },
    );
    let mut first: Vec<usize> = Vec::new();
    first.push(0);
    seen.insert(code_of(board), first);
    let mut head: usize = 0;
    let ghost mut level_end: int = 1;
    let ghost mut d: nat = 0;
    proof {
        assert(seen@[code_at(nodes@, 0)]@[0] == 0);
        assert(least(nodes@, start, 0)) by {
            assert forall|choices: Seq<Choice>|
                #![trigger start.after(choices)]
                start.allows(choices) && start.after(choices) == nodes@[0].state() implies choices
                == nodes@[0].path@ || precedes(nodes@[0].path@, choices) by {
                if choices.len() == 0 {
                    assert(choices =~= nodes@[0].path@);
                }
            }
        }
    }
    while head < nodes.len()
        invariant
            start == (StateView { board: board@, tools: tool_views(tools@) }),
            is_tree(nodes@, start),
            indexed(nodes@, seen@),
            in_order(nodes@, start),
            in_levels(nodes@, head as int, level_end, d),
            head == level_end ==> head == nodes@.len() || d < moves_left(start.tools),
            d <= moves_left(start.tools),
            forall|j: int| 0 <= j < head ==> #[trigger] expanded(nodes@, j),
            forall|j: int| 0 <= j < head ==> (#[trigger] nodes@[j]).board@ != goal@,
            forall|j: int| level_end <= j < nodes@.len() ==> (#[trigger] nodes@[j]).parent < head,
        decreases moves_left(start.tools) - d, level_end - head,
    {
        proof {
            if head == level_end {
                d = d + 1;
                level_end = nodes@.len() as int;
            }
            assert(in_levels(nodes@, head as int, level_end, d));
            assert(depth(nodes@, head as int) == d);
        }
        if nodes[head].board.equals(goal) {
            let trace = rebuild_path(&nodes, head, Ghost(start));
            proof {
                let found = nodes@[head as int].path@;
                moves_are_bounded(start, found);
                assert(step_views(trace@).len() == found.len());
                assert(solves(start, goal@, found));
                assert forall|other: Seq<Choice>| #[trigger]
                    solves(start, goal@, other) implies other == found || precedes(found, other) by {
                    if other.len() <= d {
                        let q = stays_among(nodes@, start, head as int, other);
                        if q != head {
                            assert(nodes@[q].board@ == goal@);
                            assert(q > head);
                            assert(precedes(nodes@[head as int].path@, nodes@[q].path@));
                            assert(least(nodes@, start, q));
                            if other != nodes@[q].path@ {
                                precedes_is_transitive(found, nodes@[q].path@, other);
                            }
                        } else {
                            assert(least(nodes@, start, head as int));
                        }
                    }
                }
                assert(is_first_solution(start, goal@, found));
            }
            return Ok(trace);
        }
        let ghost before = nodes@;
        expand(&mut nodes, &mut seen, head, Ghost(start), Ghost(level_end), Ghost(d));
        proof {
            assert forall|j: int| 0 <= j < head + 1 implies (#[trigger] nodes@[j]).board@
                != goal@ by {
                assert(nodes@[j] == before[j]);
            }
            if head + 1 == level_end && head + 1 < nodes@.len() {
                moves_are_bounded(start, nodes@[head + 1].path@);
                assert(depth(nodes@, head + 1) == d + 1);
            }
        }
        head += 1;
    }
    proof {
        assert forall|choices: Seq<Choice>| !#[trigger] solves(start, goal@, choices) by {
            if solves(start, goal@, choices) {
                let q = stays_among(nodes@, start, head as int, choices);
                assert(nodes@[q].board@ != goal@);
            }
        }
    }
    Err(())
}

} // verus!
