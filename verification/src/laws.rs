//! Properties of the edit distance and of edit traces: symmetry, the shapes
//! of traces between trivial inputs, the triangle inequality, that the
//! reported trace is valid and attains the distance and that no valid trace
//! beats it, and the equivalence between a trace's validity and the result
//! of applying it.

use vstd::prelude::*;

use crate::model::{
    Action, action_cost, apply_trace, cost, edit_dist, optimal_trace, valid_trace,
};

verus! {

/// The numeric edit distance does not depend on the direction: turning `a`
/// into `b` takes as many edits as turning `b` into `a`, with insertions
/// and deletions trading places.
pub proof fn lemma_distance_symmetric(a: Seq<char>, b: Seq<char>)
    ensures
        edit_dist(a, b) == edit_dist(b, a),
    decreases a.len() + b.len(),
{
    if a.len() == 0 || b.len() == 0 {
    } else if a.last() == b.last() {
        lemma_distance_symmetric(a.drop_last(), b.drop_last());
    } else {
        lemma_distance_symmetric(a, b.drop_last());
        lemma_distance_symmetric(a.drop_last(), b);
        lemma_distance_symmetric(a.drop_last(), b.drop_last());
    }
}

/// A sequence is at distance zero from itself.
pub proof fn lemma_distance_self(a: Seq<char>)
    ensures
        edit_dist(a, a) == 0,
    decreases a.len(),
{
    if a.len() > 0 {
        lemma_distance_self(a.drop_last());
    }
}

/// A trace with no edits consists of match actions only.
pub proof fn lemma_zero_cost_all_match(t: Seq<Action>)
    requires
        cost(t) == 0,
    ensures
        forall|i: int| 0 <= i < t.len() ==> t[i] is Match,
    decreases t.len(),
{
    if t.len() > 0 {
        lemma_zero_cost_all_match(t.drop_first());
        assert forall|i: int| 0 <= i < t.len() implies t[i] is Match by {
            if i > 0 {
                assert(t.drop_first()[i - 1] is Match);
            }
        }
    }
}

/// The distance from the empty sequence is the other sequence's length.
pub proof fn lemma_distance_from_empty(b: Seq<char>)
    ensures
        edit_dist(Seq::<char>::empty(), b) == b.len(),
        edit_dist(b, Seq::<char>::empty()) == b.len(),
{
}

/// A trace from an empty source inserts every destination character in
/// order, and nothing else.
pub proof fn lemma_trace_from_empty(t: Seq<Action>, a: Seq<char>, b: Seq<char>)
    requires
        valid_trace(t, a, b),
        a.len() == 0,
    ensures
        t.len() == b.len(),
        forall|i: int| 0 <= i < t.len() ==> t[i] == Action::Insert(b[i]),
    decreases t.len(),
{
    if t.len() > 0 {
        lemma_trace_from_empty(t.drop_first(), a, b.drop_first());
        assert forall|i: int| 0 <= i < t.len() implies t[i] == Action::Insert(b[i]) by {
            if i > 0 {
                assert(t.drop_first()[i - 1] == Action::Insert(b.drop_first()[i - 1]));
            }
        }
    }
}

/// A trace to an empty destination deletes every source character in
/// order, and nothing else.
pub proof fn lemma_trace_to_empty(t: Seq<Action>, a: Seq<char>, b: Seq<char>)
    requires
        valid_trace(t, a, b),
        b.len() == 0,
    ensures
        t.len() == a.len(),
        forall|i: int| 0 <= i < t.len() ==> t[i] == Action::Delete(a[i]),
    decreases t.len(),
{
    if t.len() > 0 {
        lemma_trace_to_empty(t.drop_first(), a.drop_first(), b);
        assert forall|i: int| 0 <= i < t.len() implies t[i] == Action::Delete(a[i]) by {
            if i > 0 {
                assert(t.drop_first()[i - 1] == Action::Delete(a.drop_first()[i - 1]));
            }
        }
    }
}

/// Appending one action to a trace costs exactly that action's cost.
proof fn lemma_cost_snoc(t: Seq<Action>, x: Action)
    ensures
        cost(t.push(x)) == cost(t) + action_cost(x),
    decreases t.len(),
{
    if t.len() == 0 {
        assert(t.push(x).first() == x);
        assert(t.push(x).drop_first() =~= Seq::<Action>::empty());
        assert(cost(t.push(x).drop_first()) == 0);
    } else {
        assert(t.push(x).first() == t.first());
        assert(t.push(x).drop_first() =~= t.drop_first().push(x));
        lemma_cost_snoc(t.drop_first(), x);
    }
}

/// What it means for `x` to be the final action of a valid trace: the
/// action fits the final characters of the two sequences, and the earlier
/// actions form a valid trace between the shortened sequences.
spec fn valid_snoc_shape(t: Seq<Action>, x: Action, a: Seq<char>, b: Seq<char>) -> bool {
    match x {
        Action::Match(c) => a.len() > 0 && b.len() > 0 && a.last() == c && b.last() == c
            && valid_trace(t, a.drop_last(), b.drop_last()),
        Action::Insert(c) => b.len() > 0 && b.last() == c && valid_trace(t, a, b.drop_last()),
        Action::Delete(c) => a.len() > 0 && a.last() == c && valid_trace(t, a.drop_last(), b),
        Action::Substitute(c, e) => a.len() > 0 && b.len() > 0 && a.last() == c && b.last() == e
            && valid_trace(t, a.drop_last(), b.drop_last()),
    }
}

/// A trace extended with a final action is valid exactly when the final
/// action consumes and produces the final characters and the earlier
/// actions are valid for the shortened sequences.
proof fn lemma_valid_snoc(t: Seq<Action>, x: Action, a: Seq<char>, b: Seq<char>)
    ensures
        valid_trace(t.push(x), a, b) == valid_snoc_shape(t, x, a, b),
    decreases t.len(),
{
    if a.len() >= 2 {
        assert(a.drop_first().drop_last() =~= a.drop_last().drop_first());
        assert(a.drop_first().last() == a.last());
        assert(a.drop_last().first() == a.first());
    }
    if a.len() == 1 {
        assert(a.drop_first() =~= Seq::<char>::empty());
        assert(a.drop_last() =~= Seq::<char>::empty());
        assert(a.first() == a.last());
    }
    if b.len() >= 2 {
        assert(b.drop_first().drop_last() =~= b.drop_last().drop_first());
        assert(b.drop_first().last() == b.last());
        assert(b.drop_last().first() == b.first());
    }
    if b.len() == 1 {
        assert(b.drop_first() =~= Seq::<char>::empty());
        assert(b.drop_last() =~= Seq::<char>::empty());
        assert(b.first() == b.last());
    }
    if t.len() == 0 {
        let s = t.push(x);
        assert(s.len() == 1);
        assert(s.first() == x);
        assert(s.drop_first() =~= Seq::<Action>::empty());
        assert(valid_trace(s, a, b) == (match s.first() {
            Action::Match(c) => a.len() > 0 && b.len() > 0 && a.first() == c && b.first() == c
                && valid_trace(s.drop_first(), a.drop_first(), b.drop_first()),
            Action::Insert(c) => b.len() > 0 && b.first() == c && valid_trace(
                s.drop_first(),
                a,
                b.drop_first(),
            ),
            Action::Delete(c) => a.len() > 0 && a.first() == c && valid_trace(
                s.drop_first(),
                a.drop_first(),
                b,
            ),
            Action::Substitute(c, e) => a.len() > 0 && b.len() > 0 && a.first() == c && b.first()
                == e && valid_trace(s.drop_first(), a.drop_first(), b.drop_first()),
        }));
    } else {
        assert(t.push(x).first() == t.first());
        assert(t.push(x).drop_first() =~= t.drop_first().push(x));
        match t.first() {
            Action::Match(_) => {
                lemma_valid_snoc(t.drop_first(), x, a.drop_first(), b.drop_first());
            },
            Action::Insert(_) => {
                lemma_valid_snoc(t.drop_first(), x, a, b.drop_first());
            },
            Action::Delete(_) => {
                lemma_valid_snoc(t.drop_first(), x, a.drop_first(), b);
            },
            Action::Substitute(_, _) => {
                lemma_valid_snoc(t.drop_first(), x, a.drop_first(), b.drop_first());
            },
        }
    }
}

/// Dropping or keeping one final character changes the edit distance by at
/// most one, in either direction and on either side.
proof fn lemma_dist_one_char(a: Seq<char>, b: Seq<char>)
    ensures
        a.len() > 0 ==> edit_dist(a, b) <= 1 + edit_dist(a.drop_last(), b),
        a.len() > 0 ==> edit_dist(a.drop_last(), b) <= 1 + edit_dist(a, b),
        b.len() > 0 ==> edit_dist(a, b) <= 1 + edit_dist(a, b.drop_last()),
        b.len() > 0 ==> edit_dist(a, b.drop_last()) <= 1 + edit_dist(a, b),
    decreases a.len() + b.len(),
{
    if a.len() > 0 && b.len() > 0 {
        lemma_dist_one_char(a.drop_last(), b);
        lemma_dist_one_char(a, b.drop_last());
    }
}

/// No valid trace beats the edit distance: the distance is a lower bound on
/// the number of non-match actions of any trace between the two sequences.
pub proof fn lemma_min_cost(t: Seq<Action>, a: Seq<char>, b: Seq<char>)
    requires
        valid_trace(t, a, b),
    ensures
        edit_dist(a, b) <= cost(t),
    decreases t.len(),
{
    if t.len() == 0 {
    } else {
        assert(t.drop_last().push(t.last()) =~= t);
        lemma_valid_snoc(t.drop_last(), t.last(), a, b);
        lemma_cost_snoc(t.drop_last(), t.last());
        lemma_dist_one_char(a, b);
        match t.last() {
            Action::Match(_) => {
                lemma_min_cost(t.drop_last(), a.drop_last(), b.drop_last());
            },
            Action::Insert(_) => {
                lemma_min_cost(t.drop_last(), a, b.drop_last());
            },
            Action::Delete(_) => {
                lemma_min_cost(t.drop_last(), a.drop_last(), b);
            },
            Action::Substitute(_, _) => {
                lemma_min_cost(t.drop_last(), a.drop_last(), b.drop_last());
                if a.last() != b.last() {
                    assert(edit_dist(a, b) <= 1 + edit_dist(a.drop_last(), b.drop_last()));
                }
            },
        }
    }
}

/// The insert case of the reported trace: when the destination is longer or
/// an insertion wins the tie-break, the reported trace ends by inserting the
/// final destination character, and validity and cost carry over.
proof fn lemma_report_insert_case(c: char, a: Seq<char>, b: Seq<char>)
    requires
        b.len() > 0,
        b.last() == c,
        a.len() == 0 || (a.last() != c && edit_dist(a, b.drop_last()) <= edit_dist(
            a.drop_last(),
            b,
        ) && edit_dist(a, b.drop_last()) <= edit_dist(a.drop_last(), b.drop_last())),
        valid_trace(optimal_trace(a, b.drop_last()), a, b.drop_last()),
        cost(optimal_trace(a, b.drop_last())) == edit_dist(a, b.drop_last()),
    ensures
        valid_trace(optimal_trace(a, b), a, b),
        cost(optimal_trace(a, b)) == edit_dist(a, b),
{
    let x = Action::Insert(c);
    let t0 = optimal_trace(a, b.drop_last());
    assert(optimal_trace(a, b) == t0.push(x));
    lemma_valid_snoc(t0, x, a, b);
    lemma_cost_snoc(t0, x);
    assert(edit_dist(a, b) == 1 + edit_dist(a, b.drop_last()));
}

/// The delete case of the reported trace: when the source is longer or a
/// deletion wins the tie-break, the reported trace ends by deleting the
/// final source character.
proof fn lemma_report_delete_case(c: char, a: Seq<char>, b: Seq<char>)
    requires
        a.len() > 0,
        a.last() == c,
        b.len() == 0 || (c != b.last() && !(edit_dist(a, b.drop_last()) <= edit_dist(
            a.drop_last(),
            b,
        ) && edit_dist(a, b.drop_last()) <= edit_dist(a.drop_last(), b.drop_last()))
            && edit_dist(a.drop_last(), b) <= edit_dist(a.drop_last(), b.drop_last())),
        valid_trace(optimal_trace(a.drop_last(), b), a.drop_last(), b),
        cost(optimal_trace(a.drop_last(), b)) == edit_dist(a.drop_last(), b),
    ensures
        valid_trace(optimal_trace(a, b), a, b),
        cost(optimal_trace(a, b)) == edit_dist(a, b),
{
    let x = Action::Delete(c);
    let t0 = optimal_trace(a.drop_last(), b);
    assert(optimal_trace(a, b) == t0.push(x));
    lemma_valid_snoc(t0, x, a, b);
    lemma_cost_snoc(t0, x);
    assert(edit_dist(a, b) == 1 + edit_dist(a.drop_last(), b));
}

/// The match case of the reported trace: equal final characters are kept.
proof fn lemma_report_match_case(c: char, a: Seq<char>, b: Seq<char>)
    requires
        a.len() > 0,
        b.len() > 0,
        a.last() == c,
        b.last() == c,
        valid_trace(optimal_trace(a.drop_last(), b.drop_last()), a.drop_last(), b.drop_last()),
        cost(optimal_trace(a.drop_last(), b.drop_last())) == edit_dist(
            a.drop_last(),
            b.drop_last(),
        ),
    ensures
        valid_trace(optimal_trace(a, b), a, b),
        cost(optimal_trace(a, b)) == edit_dist(a, b),
{
    let x = Action::Match(c);
    let t0 = optimal_trace(a.drop_last(), b.drop_last());
    assert(optimal_trace(a, b) == t0.push(x));
    lemma_valid_snoc(t0, x, a, b);
    lemma_cost_snoc(t0, x);
    assert(edit_dist(a, b) == edit_dist(a.drop_last(), b.drop_last()));
}

/// The substitute case of the reported trace: when neither an insertion nor
/// a deletion wins the tie-break, the final source character is replaced by
/// the final destination character.
proof fn lemma_report_substitute_case(c: char, e: char, a: Seq<char>, b: Seq<char>)
    requires
        a.len() > 0,
        b.len() > 0,
        a.last() == c,
        b.last() == e,
        c != e,
        !(edit_dist(a, b.drop_last()) <= edit_dist(a.drop_last(), b) && edit_dist(
            a,
            b.drop_last(),
        ) <= edit_dist(a.drop_last(), b.drop_last())),
        !(edit_dist(a.drop_last(), b) <= edit_dist(a.drop_last(), b.drop_last())),
        valid_trace(optimal_trace(a.drop_last(), b.drop_last()), a.drop_last(), b.drop_last()),
        cost(optimal_trace(a.drop_last(), b.drop_last())) == edit_dist(
            a.drop_last(),
            b.drop_last(),
        ),
    ensures
        valid_trace(optimal_trace(a, b), a, b),
        cost(optimal_trace(a, b)) == edit_dist(a, b),
{
    let x = Action::Substitute(c, e);
    let t0 = optimal_trace(a.drop_last(), b.drop_last());
    assert(optimal_trace(a, b) == t0.push(x));
    lemma_valid_snoc(t0, x, a, b);
    lemma_cost_snoc(t0, x);
    assert(edit_dist(a, b) == 1 + edit_dist(a.drop_last(), b.drop_last()));
}

/// The trace the library reports is itself a valid, optimal trace: applied
/// to `a` it reproduces `b`, and its number of non-match actions is exactly
/// the edit distance.
pub proof fn lemma_optimal_trace_properties(a: Seq<char>, b: Seq<char>)
    ensures
        valid_trace(optimal_trace(a, b), a, b),
        cost(optimal_trace(a, b)) == edit_dist(a, b),
    decreases a.len() + b.len(),
{
    if a.len() == 0 && b.len() == 0 {
        assert(optimal_trace(a, b) =~= Seq::<Action>::empty());
    } else if a.len() == 0 {
        lemma_optimal_trace_properties(a, b.drop_last());
        lemma_report_insert_case(b.last(), a, b);
    } else if b.len() == 0 {
        lemma_optimal_trace_properties(a.drop_last(), b);
        lemma_report_delete_case(a.last(), a, b);
    } else if a.last() == b.last() {
        lemma_optimal_trace_properties(a.drop_last(), b.drop_last());
        lemma_report_match_case(a.last(), a, b);
    } else {
        let d1 = edit_dist(a, b.drop_last());
        let d2 = edit_dist(a.drop_last(), b);
        let d3 = edit_dist(a.drop_last(), b.drop_last());
        if d1 <= d2 && d1 <= d3 {
            lemma_optimal_trace_properties(a, b.drop_last());
            lemma_report_insert_case(b.last(), a, b);
        } else if d2 <= d3 {
            lemma_optimal_trace_properties(a.drop_last(), b);
            lemma_report_delete_case(a.last(), a, b);
        } else {
            lemma_optimal_trace_properties(a.drop_last(), b.drop_last());
            lemma_report_substitute_case(a.last(), b.last(), a, b);
        }
    }
}

/// The edit distance is attained: some valid trace between `a` and `b` has
/// exactly `edit_dist(a, b)` non-match actions — the reported trace itself.
pub proof fn lemma_achievable(a: Seq<char>, b: Seq<char>)
    ensures
        exists|t: Seq<Action>| valid_trace(t, a, b) && cost(t) == edit_dist(a, b),
{
    lemma_optimal_trace_properties(a, b);
    assert(valid_trace(optimal_trace(a, b), a, b) && cost(optimal_trace(a, b)) == edit_dist(
        a,
        b,
    ));
}

/// Prefixing a match action onto a trace between the shortened sequences
/// yields a trace between the full ones, within the given cost budget.
proof fn lemma_prepend_match(c: char, t: Seq<Action>, a: Seq<char>, b: Seq<char>, budget: nat)
    requires
        a.len() > 0,
        b.len() > 0,
        a.first() == c,
        b.first() == c,
        valid_trace(t, a.drop_first(), b.drop_first()),
        cost(t) <= budget,
    ensures
        exists|w: Seq<Action>| valid_trace(w, a, b) && cost(w) <= budget,
{
    let x = Action::Match(c);
    let w = seq![x] + t;
    assert(w.first() == x);
    assert(w.drop_first() =~= t);
    assert(valid_trace(w, a, b) && cost(w) <= budget);
}

/// Prefixing an insertion onto a trace that produces the rest of the
/// destination, within the given cost budget.
proof fn lemma_prepend_insert(c: char, t: Seq<Action>, a: Seq<char>, b: Seq<char>, budget: nat)
    requires
        b.len() > 0,
        b.first() == c,
        valid_trace(t, a, b.drop_first()),
        cost(t) + 1 <= budget,
    ensures
        exists|w: Seq<Action>| valid_trace(w, a, b) && cost(w) <= budget,
{
    let x = Action::Insert(c);
    let w = seq![x] + t;
    assert(w.first() == x);
    assert(w.drop_first() =~= t);
    assert(valid_trace(w, a, b) && cost(w) <= budget);
}

/// Prefixing a deletion onto a trace that consumes the rest of the source,
/// within the given cost budget.
proof fn lemma_prepend_delete(c: char, t: Seq<Action>, a: Seq<char>, b: Seq<char>, budget: nat)
    requires
        a.len() > 0,
        a.first() == c,
        valid_trace(t, a.drop_first(), b),
        cost(t) + 1 <= budget,
    ensures
        exists|w: Seq<Action>| valid_trace(w, a, b) && cost(w) <= budget,
{
    let x = Action::Delete(c);
    let w = seq![x] + t;
    assert(w.first() == x);
    assert(w.drop_first() =~= t);
    assert(valid_trace(w, a, b) && cost(w) <= budget);
}

/// Prefixing a substitution onto a trace between the shortened sequences,
/// within the given cost budget.
proof fn lemma_prepend_substitute(
    c: char,
    e: char,
    t: Seq<Action>,
    a: Seq<char>,
    b: Seq<char>,
    budget: nat,
)
    requires
        a.len() > 0,
        b.len() > 0,
        a.first() == c,
        b.first() == e,
        valid_trace(t, a.drop_first(), b.drop_first()),
        cost(t) + 1 <= budget,
    ensures
        exists|w: Seq<Action>| valid_trace(w, a, b) && cost(w) <= budget,
{
    let x = Action::Substitute(c, e);
    let w = seq![x] + t;
    assert(w.first() == x);
    assert(w.drop_first() =~= t);
    assert(valid_trace(w, a, b) && cost(w) <= budget);
}

/// Two traces compose: a trace from `a` to `b` followed by a trace from `b`
/// to `c` yields a trace from `a` to `c` that costs no more than the two
/// together.
proof fn lemma_compose(t1: Seq<Action>, t2: Seq<Action>, a: Seq<char>, b: Seq<char>, c: Seq<char>)
    requires
        valid_trace(t1, a, b),
        valid_trace(t2, b, c),
    ensures
        exists|w: Seq<Action>| valid_trace(w, a, c) && cost(w) <= cost(t1) + cost(t2),
    decreases t1.len() + t2.len(),
{
    let budget = (cost(t1) + cost(t2)) as nat;
    if t1.len() == 0 {
        assert(a =~= b);
        assert(valid_trace(t2, a, c) && cost(t2) <= budget);
    } else if t2.len() == 0 {
        assert(b =~= c);
        assert(valid_trace(t1, a, c) && cost(t1) <= budget);
    } else if t1.first() is Delete {
        lemma_compose(t1.drop_first(), t2, a.drop_first(), b, c);
        let t = choose|t: Seq<Action>|
            valid_trace(t, a.drop_first(), c) && cost(t) <= cost(t1.drop_first()) + cost(t2);
        lemma_prepend_delete(a.first(), t, a, c, budget);
    } else if t2.first() is Insert {
        lemma_compose(t1, t2.drop_first(), a, b, c.drop_first());
        let t = choose|t: Seq<Action>|
            valid_trace(t, a, c.drop_first()) && cost(t) <= cost(t1) + cost(t2.drop_first());
        lemma_prepend_insert(c.first(), t, a, c, budget);
    } else {
        // The first action of `t1` produces `b`'s first character and the
        // first action of `t2` consumes it.
        let t1r = t1.drop_first();
        let t2r = t2.drop_first();
        match (t1.first(), t2.first()) {
            (Action::Match(_), Action::Match(_)) => {
                lemma_compose(t1r, t2r, a.drop_first(), b.drop_first(), c.drop_first());
                let t = choose|t: Seq<Action>|
                    valid_trace(t, a.drop_first(), c.drop_first()) && cost(t) <= cost(t1r) + cost(
                        t2r,
                    );
                lemma_prepend_match(a.first(), t, a, c, budget);
            },
            (Action::Match(_), Action::Delete(_)) => {
                lemma_compose(t1r, t2r, a.drop_first(), b.drop_first(), c);
                let t = choose|t: Seq<Action>|
                    valid_trace(t, a.drop_first(), c) && cost(t) <= cost(t1r) + cost(t2r);
                lemma_prepend_delete(a.first(), t, a, c, budget);
            },
            (Action::Match(_), Action::Substitute(_, _)) => {
                lemma_compose(t1r, t2r, a.drop_first(), b.drop_first(), c.drop_first());
                let t = choose|t: Seq<Action>|
                    valid_trace(t, a.drop_first(), c.drop_first()) && cost(t) <= cost(t1r) + cost(
                        t2r,
                    );
                lemma_prepend_substitute(a.first(), c.first(), t, a, c, budget);
            },
            (Action::Insert(_), Action::Match(_)) => {
                lemma_compose(t1r, t2r, a, b.drop_first(), c.drop_first());
                let t = choose|t: Seq<Action>|
                    valid_trace(t, a, c.drop_first()) && cost(t) <= cost(t1r) + cost(t2r);
                lemma_prepend_insert(c.first(), t, a, c, budget);
            },
            (Action::Insert(_), Action::Delete(_)) => {
                lemma_compose(t1r, t2r, a, b.drop_first(), c);
                let t = choose|t: Seq<Action>|
                    valid_trace(t, a, c) && cost(t) <= cost(t1r) + cost(t2r);
                assert(valid_trace(t, a, c) && cost(t) <= budget);
            },
            (Action::Insert(_), Action::Substitute(_, _)) => {
                lemma_compose(t1r, t2r, a, b.drop_first(), c.drop_first());
                let t = choose|t: Seq<Action>|
                    valid_trace(t, a, c.drop_first()) && cost(t) <= cost(t1r) + cost(t2r);
                lemma_prepend_insert(c.first(), t, a, c, budget);
            },
            (Action::Substitute(_, _), Action::Match(_)) => {
                lemma_compose(t1r, t2r, a.drop_first(), b.drop_first(), c.drop_first());
                let t = choose|t: Seq<Action>|
                    valid_trace(t, a.drop_first(), c.drop_first()) && cost(t) <= cost(t1r) + cost(
                        t2r,
                    );
                lemma_prepend_substitute(a.first(), c.first(), t, a, c, budget);
            },
            (Action::Substitute(_, _), Action::Delete(_)) => {
                lemma_compose(t1r, t2r, a.drop_first(), b.drop_first(), c);
                let t = choose|t: Seq<Action>|
                    valid_trace(t, a.drop_first(), c) && cost(t) <= cost(t1r) + cost(t2r);
                lemma_prepend_delete(a.first(), t, a, c, budget);
            },
            (Action::Substitute(_, _), Action::Substitute(_, _)) => {
                lemma_compose(t1r, t2r, a.drop_first(), b.drop_first(), c.drop_first());
                let t = choose|t: Seq<Action>|
                    valid_trace(t, a.drop_first(), c.drop_first()) && cost(t) <= cost(t1r) + cost(
                        t2r,
                    );
                lemma_prepend_substitute(a.first(), c.first(), t, a, c, budget);
            },
            _ => {
                assert(false);
            },
        }
    }
}

/// The triangle inequality: editing `a` into `c` directly never takes more
/// steps than editing `a` into `b` and then `b` into `c`.
pub proof fn lemma_triangle_inequality(a: Seq<char>, b: Seq<char>, c: Seq<char>)
    ensures
        edit_dist(a, c) <= edit_dist(a, b) + edit_dist(b, c),
{
    lemma_achievable(a, b);
    let t1 = choose|t: Seq<Action>| valid_trace(t, a, b) && cost(t) == edit_dist(a, b);
    lemma_achievable(b, c);
    let t2 = choose|t: Seq<Action>| valid_trace(t, b, c) && cost(t) == edit_dist(b, c);
    lemma_compose(t1, t2, a, b, c);
    let t = choose|t: Seq<Action>| valid_trace(t, a, c) && cost(t) <= cost(t1) + cost(t2);
    lemma_min_cost(t, a, c);
}

/// A trace is valid between `a` and `b` exactly when applying it to `a`
/// produces `b`.
pub proof fn lemma_valid_trace_is_apply(t: Seq<Action>, a: Seq<char>, b: Seq<char>)
    ensures
        valid_trace(t, a, b) <==> apply_trace(t, a) == Some(b),
    decreases t.len(),
{
    if t.len() == 0 {
        if a.len() == 0 {
            assert(b.len() == 0 ==> b =~= Seq::<char>::empty());
        }
    } else {
        match t.first() {
            Action::Match(x) => {
                if a.len() > 0 && a.first() == x {
                    lemma_valid_trace_is_apply(t.drop_first(), a.drop_first(), b.drop_first());
                    lemma_apply_step(t, a, b, a.drop_first(), x);
                }
            },
            Action::Insert(y) => {
                lemma_valid_trace_is_apply(t.drop_first(), a, b.drop_first());
                lemma_apply_step(t, a, b, a, y);
            },
            Action::Delete(x) => {
                if a.len() > 0 && a.first() == x {
                    lemma_valid_trace_is_apply(t.drop_first(), a.drop_first(), b);
                }
            },
            Action::Substitute(x, y) => {
                if a.len() > 0 && a.first() == x {
                    lemma_valid_trace_is_apply(t.drop_first(), a.drop_first(), b.drop_first());
                    lemma_apply_step(t, a, b, a.drop_first(), y);
                }
            },
        }
    }
}

/// One step of the application equivalence, for the actions that produce a
/// character: the rest of the trace applied to the rest of the source must
/// produce the rest of the destination, and the produced character must be
/// the destination's first.
proof fn lemma_apply_step(t: Seq<Action>, a: Seq<char>, b: Seq<char>, rest: Seq<char>, out: char)
    requires
        t.len() > 0,
        apply_trace(t, a) == (match apply_trace(t.drop_first(), rest) {
            Some(r) => Some(seq![out] + r),
            None => None,
        }),
        valid_trace(t, a, b) <==> (b.len() > 0 && b.first() == out && valid_trace(
            t.drop_first(),
            rest,
            b.drop_first(),
        )),
        valid_trace(t.drop_first(), rest, b.drop_first()) <==> apply_trace(t.drop_first(), rest)
            == Some(b.drop_first()),
    ensures
        valid_trace(t, a, b) <==> apply_trace(t, a) == Some(b),
{
    if valid_trace(t, a, b) {
        assert(seq![out] + b.drop_first() =~= b);
    }
    if apply_trace(t, a) == Some(b) {
        let r = apply_trace(t.drop_first(), rest);
        match r {
            Some(rr) => {
                assert(b == seq![out] + rr);
                assert(b.len() > 0 && b.first() == out);
                assert(rr =~= b.drop_first());
            },
            None => {},
        }
    }
}

} // verus!
