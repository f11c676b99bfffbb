//! The mathematical model: edit distance over character sequences and the
//! meaning of an edit trace.

use vstd::prelude::*;

verus! {

/// A single edit step in transforming a source sequence into a destination
/// sequence. A trace of these, read left to right, rewrites the source.
#[derive(Clone, Copy, PartialEq, Eq, Debug)]
pub enum Action {
    /// The character is the same in both sequences and is kept.
    Match(char),
    /// The character occurs in the destination only and is added.
    Insert(char),
    /// The character occurs in the source only and is removed.
    Delete(char),
    /// The first character (from the source) is replaced by the second
    /// (from the destination).
    Substitute(char, char),
}

/// The smallest of three natural numbers.
pub open spec fn min3(x: nat, y: nat, z: nat) -> nat {
    if x <= y && x <= z {
        x
    } else if y <= z {
        y
    } else {
        z
    }
}

/// The Levenshtein edit distance between `a` and `b`: the least number of
/// single-character insertions, deletions and substitutions that turns `a`
/// into `b`. When the final characters agree the distance is that of the
/// shortened sequences; otherwise one edit is paid and the cheapest of the
/// three ways to shorten the problem is taken.
pub open spec fn edit_dist(a: Seq<char>, b: Seq<char>) -> nat
    decreases a.len() + b.len(),
{
    if a.len() == 0 {
        b.len()
    } else if b.len() == 0 {
        a.len()
    } else if a.last() == b.last() {
        edit_dist(a.drop_last(), b.drop_last())
    } else {
        1 + min3(
            edit_dist(a, b.drop_last()),
            edit_dist(a.drop_last(), b),
            edit_dist(a.drop_last(), b.drop_last()),
        )
    }
}

/// How much one action counts toward the edit distance: a match is free,
/// every other action is one edit.
pub open spec fn action_cost(x: Action) -> nat {
    match x {
        Action::Match(_) => 0,
        _ => 1,
    }
}

/// The number of edits in a trace: the number of its non-match actions.
pub open spec fn cost(t: Seq<Action>) -> nat
    decreases t.len(),
{
    if t.len() == 0 {
        0
    } else {
        action_cost(t.first()) + cost(t.drop_first())
    }
}

/// The trace `t`, applied left to right, transforms `a` exactly into `b`:
/// a match keeps the next source character, an insertion produces one
/// destination character without consuming from the source, a deletion
/// consumes one source character without producing anything, and a
/// substitution consumes one source character and produces one destination
/// character.
pub open spec fn valid_trace(t: Seq<Action>, a: Seq<char>, b: Seq<char>) -> bool
    decreases t.len(),
{
    if t.len() == 0 {
        a.len() == 0 && b.len() == 0
    } else {
        match t.first() {
            Action::Match(x) => a.len() > 0 && b.len() > 0 && a.first() == x && b.first() == x
                && valid_trace(t.drop_first(), a.drop_first(), b.drop_first()),
            Action::Insert(y) => b.len() > 0 && b.first() == y
                && valid_trace(t.drop_first(), a, b.drop_first()),
            Action::Delete(x) => a.len() > 0 && a.first() == x
                && valid_trace(t.drop_first(), a.drop_first(), b),
            Action::Substitute(x, y) => a.len() > 0 && b.len() > 0 && a.first() == x
                && b.first() == y
                && valid_trace(t.drop_first(), a.drop_first(), b.drop_first()),
        }
    }
}

/// The one edit trace this library reports for `a` and `b`: among the
/// optimal traces, the one picked by the tie-break policy. Where an
/// insertion, a deletion and a substitution cost the same, an insertion is
/// preferred, then a deletion, and a substitution comes last; equal final
/// characters are always kept as a match.
pub open spec fn optimal_trace(a: Seq<char>, b: Seq<char>) -> Seq<Action>
    decreases a.len() + b.len(),
{
    if a.len() == 0 && b.len() == 0 {
        Seq::<Action>::empty()
    } else if a.len() == 0 {
        optimal_trace(a, b.drop_last()).push(Action::Insert(b.last()))
    } else if b.len() == 0 {
        optimal_trace(a.drop_last(), b).push(Action::Delete(a.last()))
    } else if a.last() == b.last() {
        optimal_trace(a.drop_last(), b.drop_last()).push(Action::Match(a.last()))
    } else {
        let insert_cost = edit_dist(a, b.drop_last());
        let delete_cost = edit_dist(a.drop_last(), b);
        let substitute_cost = edit_dist(a.drop_last(), b.drop_last());
        if insert_cost <= delete_cost && insert_cost <= substitute_cost {
            optimal_trace(a, b.drop_last()).push(Action::Insert(b.last()))
        } else if delete_cost <= substitute_cost {
            optimal_trace(a.drop_last(), b).push(Action::Delete(a.last()))
        } else {
            optimal_trace(a.drop_last(), b.drop_last()).push(
                Action::Substitute(a.last(), b.last()),
            )
        }
    }
}

/// The edit distance never exceeds the longer sequence's length: matching
/// or substituting along the shorter sequence and inserting or deleting the
/// rest is always available.
pub proof fn lemma_edit_dist_le_max(a: Seq<char>, b: Seq<char>)
    ensures
        edit_dist(a, b) <= if a.len() <= b.len() {
            b.len()
        } else {
            a.len()
        },
    decreases a.len() + b.len(),
{
    if a.len() == 0 || b.len() == 0 {
    } else {
        lemma_edit_dist_le_max(a.drop_last(), b.drop_last());
        if a.last() != b.last() {
            lemma_edit_dist_le_max(a, b.drop_last());
            lemma_edit_dist_le_max(a.drop_last(), b);
        }
    }
}

/// The distance between prefixes obeys the table recurrence: the cell for
/// prefixes of lengths `i` and `j` is the diagonal neighbour when the last
/// characters agree, and otherwise one more than the smallest of its left,
/// top and diagonal neighbours.
pub proof fn lemma_edit_dist_prefix_unfold(a: Seq<char>, b: Seq<char>, i: int, j: int)
    requires
        1 <= i <= a.len(),
        1 <= j <= b.len(),
    ensures
        a[i - 1] == b[j - 1] ==> edit_dist(a.take(i), b.take(j)) == edit_dist(
            a.take(i - 1),
            b.take(j - 1),
        ),
        a[i - 1] != b[j - 1] ==> edit_dist(a.take(i), b.take(j)) == 1 + min3(
            edit_dist(a.take(i), b.take(j - 1)),
            edit_dist(a.take(i - 1), b.take(j)),
            edit_dist(a.take(i - 1), b.take(j - 1)),
        ),
{
    assert(a.take(i).drop_last() =~= a.take(i - 1));
    assert(b.take(j).drop_last() =~= b.take(j - 1));
    assert(a.take(i).last() == a[i - 1]);
    assert(b.take(j).last() == b[j - 1]);
}

/// The distance between a prefix and the empty sequence is the prefix's
/// length: every character is deleted (or, from the empty side, inserted).
pub proof fn lemma_edit_dist_prefix_base(a: Seq<char>, b: Seq<char>, i: int, j: int)
    requires
        0 <= i <= a.len(),
        0 <= j <= b.len(),
        i == 0 || j == 0,
    ensures
        edit_dist(a.take(i), b.take(j)) == i + j,
{
    assert(a.take(i).len() == i);
    assert(b.take(j).len() == j);
}

/// The text produced by applying `t` to `a` left to right: `Some(b)` when
/// every action fits the remaining source and `b` is what comes out, `None`
/// when some action does not fit.
pub open spec fn apply_trace(t: Seq<Action>, a: Seq<char>) -> Option<Seq<char>>
    decreases t.len(),
{
    if t.len() == 0 {
        if a.len() == 0 {
            Some(Seq::<char>::empty())
        } else {
            None
        }
    } else {
        match t.first() {
            Action::Match(x) => if a.len() > 0 && a.first() == x {
                match apply_trace(t.drop_first(), a.drop_first()) {
                    Some(r) => Some(seq![x] + r),
                    None => None,
                }
            } else {
                None
            },
            Action::Insert(y) => match apply_trace(t.drop_first(), a) {
                Some(r) => Some(seq![y] + r),
                None => None,
            },
            Action::Delete(x) => if a.len() > 0 && a.first() == x {
                apply_trace(t.drop_first(), a.drop_first())
            } else {
                None
            },
            Action::Substitute(x, y) => if a.len() > 0 && a.first() == x {
                match apply_trace(t.drop_first(), a.drop_first()) {
                    Some(r) => Some(seq![y] + r),
                    None => None,
                }
            } else {
                None
            },
        }
    }
}

} // verus!
