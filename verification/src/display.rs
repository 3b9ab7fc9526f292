//! Laying out texts of several lines next to each other.

use vstd::prelude::*;
use vstd::string::StringExecFns;

verus! {

/// The lines of a text, as `str::lines` of the standard library splits
/// them.
pub uninterp spec fn line_texts(text: Seq<char>) -> Seq<Seq<char>>;

/// The characters of each line.
pub open spec fn texts(lines: Seq<String>) -> Seq<Seq<char>> {
    lines.map_values(|line: String| line@)
}

/// The first `n` lines of `left`, each followed by three spaces, the
/// line of `right` with the same number, and a line feed.
pub open spec fn side_by_side(left: Seq<Seq<char>>, right: Seq<Seq<char>>, n: int) -> Seq<char>
    decreases n,
{
    if n <= 0 {
        Seq::empty()
    } else {
        side_by_side(left, right, n - 1) + left[n - 1] + seq![' ', ' ', ' '] + right[n - 1]
            + seq!['\n']
    }
}

/// The smaller of two lengths.
pub open spec fn shorter(a: int, b: int) -> int {
    if a <= b {
        a
    } else {
        b
    }
}

/// Splits a text into its lines.
///
/// Calls `str::lines` of the standard library and copies each line it
/// yields. The contract only gives the result a name: the same text
/// always has the same lines.
#[verifier::external_body]
fn lines_of(text: &str) -> (r: Vec<String>)
    ensures
        texts(r@) == line_texts(text@),
{
    text.lines().map(String::from).collect()
}

/// Puts each line of `left` beside the line of `right` with the same
/// number, three spaces between them. Lines without a partner are left
/// out.
pub fn inline_lines(left: &Vec<String>, right: &Vec<String>) -> (r: String)
    ensures
        r@ == side_by_side(
            texts(left@),
            texts(right@),
            shorter(left@.len() as int, right@.len() as int),
        ),
{
    let count = if left.len() <= right.len() {
        left.len()
    } else {
        right.len()
    };
    let mut out = String::new();
    let mut i: usize = 0;
    while i < count
        invariant
            i <= count,
            count == shorter(left@.len() as int, right@.len() as int),
            out@ == side_by_side(texts(left@), texts(right@), i as int),
        decreases count - i,
    {
        proof {
            reveal_strlit("   ");
            reveal_strlit("\n");
        }
        out.append(left[i].as_str());
        out.append("   ");
        out.append(right[i].as_str());
        out.append("\n");
        i += 1;
        assert(out@ =~= side_by_side(texts(left@), texts(right@), i as int));
    }
    out
}

/// Puts two texts of several lines beside each other, line by line.
/// `s1` is meant to have lines of one width.
pub fn inline_multiline_strs(s1: &str, s2: &str) -> (r: String)
    ensures
        r@ == side_by_side(
            line_texts(s1@),
            line_texts(s2@),
            shorter(line_texts(s1@).len() as int, line_texts(s2@).len() as int),
        ),
{
    let left = lines_of(s1);
    let right = lines_of(s2);
    assert(texts(left@).len() == left@.len());
    assert(texts(right@).len() == right@.len());
    inline_lines(&left, &right)
}

} // verus!
