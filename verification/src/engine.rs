//! The edit-distance engine: dynamic-programming table construction and
//! backward path reconstruction.

use vstd::prelude::*;

use crate::model::{
    Action, cost, edit_dist, lemma_edit_dist_le_max, lemma_edit_dist_prefix_base,
    lemma_edit_dist_prefix_unfold, min3, optimal_trace, valid_trace,
};

verus! {

/// The smallest of three numbers, preferring the earlier argument on ties.
pub fn min(v1: u32, v2: u32, v3: u32) -> (smallest: u32)
    ensures
        smallest as nat == min3(v1 as nat, v2 as nat, v3 as nat),
        smallest == v1 || smallest == v2 || smallest == v3,
{
    let mut smallest: u32 = v1;
    if v2 < smallest {
        smallest = v2;
    }
    if v3 < smallest {
        smallest = v3;
    }
    smallest
}

/// The decision recorded for table cell `(i, j)` is filled and fits the
/// prefixes `a.take(i)` and `b.take(j)`: the action names the characters the
/// cell is about, taking it accounts for exactly the difference between this
/// cell's distance and its predecessor's, and the tie-break order is kept
/// (an insertion before a deletion before a substitution, and a match
/// whenever the characters agree).
pub open spec fn cell_decision_ok(
    a: Seq<char>,
    b: Seq<char>,
    act: Seq<Vec<Option<Action>>>,
    i: int,
    j: int,
) -> bool {
    match act[i]@[j] {
        Some(Action::Match(x)) => 1 <= i && 1 <= j && a[i - 1] == x && b[j - 1] == x
            && edit_dist(a.take(i), b.take(j)) == edit_dist(a.take(i - 1), b.take(j - 1)),
        Some(Action::Insert(y)) => 1 <= j && b[j - 1] == y && (i == 0 || a[i - 1] != b[j - 1])
            && edit_dist(a.take(i), b.take(j)) == 1 + edit_dist(a.take(i), b.take(j - 1)),
        Some(Action::Delete(x)) => 1 <= i && a[i - 1] == x && (j == 0 || a[i - 1] != b[j - 1]) && (
        j == 0 || edit_dist(a.take(i), b.take(j)) != 1 + edit_dist(a.take(i), b.take(j - 1)))
            && edit_dist(a.take(i), b.take(j)) == 1 + edit_dist(a.take(i - 1), b.take(j)),
        Some(Action::Substitute(x, y)) => 1 <= i && 1 <= j && a[i - 1] == x && b[j - 1] == y && a[i
            - 1] != b[j - 1] && edit_dist(a.take(i), b.take(j)) != 1 + edit_dist(
            a.take(i),
            b.take(j - 1),
        ) && edit_dist(a.take(i), b.take(j)) != 1 + edit_dist(a.take(i - 1), b.take(j))
            && edit_dist(a.take(i), b.take(j)) == 1 + edit_dist(a.take(i - 1), b.take(j - 1)),
        None => false,
    }
}

/// The whole decision table is filled and consistent: it has one row per
/// source prefix and one column per destination prefix, and every cell but
/// the sentinel at the origin carries a decision that fits its prefixes.
pub open spec fn decisions_ok(a: Seq<char>, b: Seq<char>, act: Seq<Vec<Option<Action>>>) -> bool {
    &&& act.len() == a.len() + 1
    &&& forall|i: int| 0 <= i <= a.len() ==> (#[trigger] act[i])@.len() == b.len() + 1
    &&& forall|i: int, j: int|
        0 <= i <= a.len() && 0 <= j <= b.len() && !(i == 0 && j == 0)
            ==> #[trigger] cell_decision_ok(a, b, act, i, j)
}

/// Walk the decision table backward from the far corner to the origin,
/// collect the decision stored at each visited cell, and hand the collected
/// actions back in forward order. The result is exactly the trace the
/// tie-break policy selects: it transforms the source into the destination
/// and its number of non-match actions is exactly the edit distance.
pub fn trace_action(
    source: &Vec<char>,
    destination: &Vec<char>,
    action_cache: &Vec<Vec<Option<Action>>>,
) -> (path: Vec<Action>)
    requires
        decisions_ok(source@, destination@, action_cache@),
    ensures
        path@ == optimal_trace(source@, destination@),
        valid_trace(path@, source@, destination@),
        cost(path@) == edit_dist(source@, destination@),
{
    let ghost a = source@;
    let ghost b = destination@;
    let mut rev: Vec<Action> = Vec::new();

    let mut n1: usize = source.len();
    let mut n2: usize = destination.len();

    proof {
        assert(a.take(n1 as int) =~= a);
        assert(b.take(n2 as int) =~= b);
        assert(a.skip(n1 as int) =~= Seq::<char>::empty());
        assert(b.skip(n2 as int) =~= Seq::<char>::empty());
        assert(optimal_trace(a, b) + rev@.reverse() =~= optimal_trace(a, b));
    }

    while n1 > 0 || n2 > 0
        invariant
            n1 <= a.len(),
            n2 <= b.len(),
            a == source@,
            b == destination@,
            decisions_ok(a, b, action_cache@),
            valid_trace(rev@.reverse(), a.skip(n1 as int), b.skip(n2 as int)),
            cost(rev@.reverse()) + edit_dist(a.take(n1 as int), b.take(n2 as int)) == edit_dist(
                a,
                b,
            ),
            optimal_trace(a, b) == optimal_trace(a.take(n1 as int), b.take(n2 as int))
                + rev@.reverse(),
        decreases n1 + n2,
    {
        proof {
            assert(cell_decision_ok(a, b, action_cache@, n1 as int, n2 as int));
        }
        let action = action_cache[n1][n2].unwrap();
        let ghost old_n1 = n1 as int;
        let ghost old_n2 = n2 as int;

        match action {
            Action::Insert(_) => {
                n2 = n2 - 1;
            },
            Action::Delete(_) => {
                n1 = n1 - 1;
            },
            Action::Match(_) | Action::Substitute(_, _) => {
                n1 = n1 - 1;
                n2 = n2 - 1;
            },
        }
        let ghost old_forward = rev@.reverse();
        rev.push(action);

        proof {
            let forward = rev@.reverse();
            assert(forward =~= seq![action] + old_forward);
            assert(forward.first() == action);
            assert(forward.drop_first() =~= old_forward);
            match action {
                Action::Insert(_) => {
                    assert(b.skip(n2 as int).first() == b[old_n2 - 1]);
                    assert(b.skip(n2 as int).drop_first() =~= b.skip(old_n2));
                },
                Action::Delete(_) => {
                    assert(a.skip(n1 as int).first() == a[old_n1 - 1]);
                    assert(a.skip(n1 as int).drop_first() =~= a.skip(old_n1));
                },
                Action::Match(_) | Action::Substitute(_, _) => {
                    assert(a.skip(n1 as int).first() == a[old_n1 - 1]);
                    assert(a.skip(n1 as int).drop_first() =~= a.skip(old_n1));
                    assert(b.skip(n2 as int).first() == b[old_n2 - 1]);
                    assert(b.skip(n2 as int).drop_first() =~= b.skip(old_n2));
                },
            }
            assert(valid_trace(forward, a.skip(n1 as int), b.skip(n2 as int)));

            let ti = a.take(old_n1);
            let tj = b.take(old_n2);
            assert(ti.len() == old_n1 && tj.len() == old_n2);
            if old_n1 >= 1 {
                assert(ti.drop_last() =~= a.take(old_n1 - 1));
                assert(ti.last() == a[old_n1 - 1]);
            }
            if old_n2 >= 1 {
                assert(tj.drop_last() =~= b.take(old_n2 - 1));
                assert(tj.last() == b[old_n2 - 1]);
            }
            if old_n1 >= 1 && old_n2 >= 1 {
                lemma_edit_dist_prefix_unfold(a, b, old_n1, old_n2);
            }
            assert(optimal_trace(ti, tj) == optimal_trace(
                a.take(n1 as int),
                b.take(n2 as int),
            ).push(action));
            assert(optimal_trace(a.take(n1 as int), b.take(n2 as int)).push(action) + old_forward
                =~= optimal_trace(a.take(n1 as int), b.take(n2 as int)) + forward);
        }
    }

    proof {
        assert(a.skip(0) =~= a);
        assert(b.skip(0) =~= b);
        assert(a.take(0) =~= Seq::<char>::empty());
        assert(b.take(0) =~= Seq::<char>::empty());
        assert(optimal_trace(a.take(0), b.take(0)) + rev@.reverse() =~= rev@.reverse());
    }

    let mut path: Vec<Action> = Vec::new();
    let mut k: usize = rev.len();
    proof {
        assert(rev@.skip(k as int) =~= Seq::<Action>::empty());
        assert(path@ =~= rev@.skip(k as int).reverse());
    }
    while k > 0
        invariant
            k <= rev@.len(),
            path@ == rev@.skip(k as int).reverse(),
        decreases k,
    {
        k = k - 1;
        path.push(rev[k]);
        proof {
            assert(path@ =~= rev@.skip(k as int).reverse());
        }
    }
    proof {
        assert(rev@.skip(0) =~= rev@);
    }
    path
}

/// The table has one row per source prefix and one column per destination
/// prefix.
pub open spec fn table_dims<T>(t: Seq<Vec<T>>, rows: int, cols: int) -> bool {
    &&& t.len() == rows
    &&& forall|i: int| 0 <= i < rows ==> (#[trigger] t[i])@.len() == cols
}

/// The distance recorded for table cell `(i, j)` is filled and is the edit
/// distance between the prefixes `a.take(i)` and `b.take(j)`.
pub open spec fn cell_distance_ok(
    a: Seq<char>,
    b: Seq<char>,
    dist: Seq<Vec<Option<u32>>>,
    i: int,
    j: int,
) -> bool {
    match dist[i]@[j] {
        Some(v) => v as nat == edit_dist(a.take(i), b.take(j)),
        None => false,
    }
}

/// Compute the edit distance between `source` and `destination`, together
/// with an optimal edit trace. The cost table and the decision table are
/// filled prefix by prefix; ties between an insertion, a deletion and a
/// substitution of equal cost are broken in that order, so the returned
/// trace is exactly `optimal_trace` of the two inputs. It transforms
/// `source` into `destination` and its number of non-match actions equals
/// the returned distance.
pub fn levenshtein(source: &Vec<char>, destination: &Vec<char>) -> (res: (u32, Vec<Action>))
    requires
        source@.len() < u32::MAX,
        destination@.len() < u32::MAX,
    ensures
        res.0 as nat == edit_dist(source@, destination@),
        res.1@ == optimal_trace(source@, destination@),
        valid_trace(res.1@, source@, destination@),
        cost(res.1@) == res.0 as nat,
{
    let ghost a = source@;
    let ghost b = destination@;
    let n: usize = source.len();
    let m: usize = destination.len();

    let mut distance_cache: Vec<Vec<Option<u32>>> = Vec::new();
    let mut actions_cache: Vec<Vec<Option<Action>>> = Vec::new();
    let mut i: usize = 0;
    while i <= n
        invariant
            i <= n + 1,
            n == a.len(),
            m == b.len(),
            n < u32::MAX,
            m < u32::MAX,
            distance_cache@.len() == i as int,
            actions_cache@.len() == i as int,
            forall|k: int| 0 <= k < i ==> (#[trigger] distance_cache@[k])@.len() == m + 1,
            forall|k: int| 0 <= k < i ==> (#[trigger] actions_cache@[k])@.len() == m + 1,
        decreases n + 1 - i,
    {
        let mut drow: Vec<Option<u32>> = Vec::new();
        let mut arow: Vec<Option<Action>> = Vec::new();
        let mut j: usize = 0;
        while j <= m
            invariant
                j <= m + 1,
                m < u32::MAX,
                drow@.len() == j as int,
                arow@.len() == j as int,
            decreases m + 1 - j,
        {
            drow.push(None);
            arow.push(None);
            j = j + 1;
        }
        distance_cache.push(drow);
        actions_cache.push(arow);
        i = i + 1;
    }

    distance_cache[0][0] = Some(0);
    actions_cache[0][0] = Some(Action::Match('_'));
    proof {
        lemma_edit_dist_prefix_base(a, b, 0, 0);
        assert(cell_distance_ok(a, b, distance_cache@, 0, 0));
    }

    let mut n1: usize = 1;
    while n1 <= n
        invariant
            1 <= n1 <= n + 1,
            n == a.len(),
            m == b.len(),
            n < u32::MAX,
            m < u32::MAX,
            a == source@,
            b == destination@,
            table_dims(distance_cache@, n as int + 1, m as int + 1),
            table_dims(actions_cache@, n as int + 1, m as int + 1),
            cell_distance_ok(a, b, distance_cache@, 0, 0),
            forall|ii: int| 1 <= ii < n1 ==> #[trigger] cell_distance_ok(
                a,
                b,
                distance_cache@,
                ii,
                0,
            ),
            forall|ii: int| 1 <= ii < n1 ==> #[trigger] cell_decision_ok(
                a,
                b,
                actions_cache@,
                ii,
                0,
            ),
        decreases n + 1 - n1,
    {
        let ghost pre_dist = distance_cache@;
        let ghost pre_act = actions_cache@;
        distance_cache[n1][0] = Some(n1 as u32);
        actions_cache[n1][0] = Some(Action::Delete(source[n1 - 1]));
        proof {
            lemma_edit_dist_prefix_base(a, b, n1 as int, 0);
            lemma_edit_dist_prefix_base(a, b, n1 as int - 1, 0);
            assert(cell_distance_ok(a, b, distance_cache@, n1 as int, 0));
            assert(cell_decision_ok(a, b, actions_cache@, n1 as int, 0));
            assert(distance_cache@[0]@[0] == pre_dist[0]@[0]);
            assert(cell_distance_ok(a, b, distance_cache@, 0, 0));
            assert forall|ii: int| 1 <= ii < n1 implies #[trigger] cell_distance_ok(
                a,
                b,
                distance_cache@,
                ii,
                0,
            ) by {
                assert(cell_distance_ok(a, b, pre_dist, ii, 0));
                assert(distance_cache@[ii]@[0] == pre_dist[ii]@[0]);
            }
            assert forall|ii: int| 1 <= ii < n1 implies #[trigger] cell_decision_ok(
                a,
                b,
                actions_cache@,
                ii,
                0,
            ) by {
                assert(cell_decision_ok(a, b, pre_act, ii, 0));
                assert(actions_cache@[ii]@[0] == pre_act[ii]@[0]);
            }
        }
        n1 = n1 + 1;
    }

    let mut n2: usize = 1;
    while n2 <= m
        invariant
            1 <= n2 <= m + 1,
            n == a.len(),
            m == b.len(),
            n < u32::MAX,
            m < u32::MAX,
            a == source@,
            b == destination@,
            table_dims(distance_cache@, n as int + 1, m as int + 1),
            table_dims(actions_cache@, n as int + 1, m as int + 1),
            cell_distance_ok(a, b, distance_cache@, 0, 0),
            forall|ii: int| 1 <= ii <= n ==> #[trigger] cell_distance_ok(
                a,
                b,
                distance_cache@,
                ii,
                0,
            ),
            forall|ii: int| 1 <= ii <= n ==> #[trigger] cell_decision_ok(
                a,
                b,
                actions_cache@,
                ii,
                0,
            ),
            forall|jj: int| 1 <= jj < n2 ==> #[trigger] cell_distance_ok(
                a,
                b,
                distance_cache@,
                0,
                jj,
            ),
            forall|jj: int| 1 <= jj < n2 ==> #[trigger] cell_decision_ok(
                a,
                b,
                actions_cache@,
                0,
                jj,
            ),
        decreases m + 1 - n2,
    {
        let ghost pre_dist = distance_cache@;
        let ghost pre_act = actions_cache@;
        distance_cache[0][n2] = Some(n2 as u32);
        actions_cache[0][n2] = Some(Action::Insert(destination[n2 - 1]));
        proof {
            lemma_edit_dist_prefix_base(a, b, 0, n2 as int);
            lemma_edit_dist_prefix_base(a, b, 0, n2 as int - 1);
            assert(cell_distance_ok(a, b, distance_cache@, 0, n2 as int));
            assert(cell_decision_ok(a, b, actions_cache@, 0, n2 as int));
            assert(distance_cache@[0]@[0] == pre_dist[0]@[0]);
            assert(cell_distance_ok(a, b, distance_cache@, 0, 0));
            assert forall|ii: int| 1 <= ii <= n implies #[trigger] cell_distance_ok(
                a,
                b,
                distance_cache@,
                ii,
                0,
            ) by {
                assert(cell_distance_ok(a, b, pre_dist, ii, 0));
                assert(distance_cache@[ii]@[0] == pre_dist[ii]@[0]);
            }
            assert forall|ii: int| 1 <= ii <= n implies #[trigger] cell_decision_ok(
                a,
                b,
                actions_cache@,
                ii,
                0,
            ) by {
                assert(cell_decision_ok(a, b, pre_act, ii, 0));
                assert(actions_cache@[ii]@[0] == pre_act[ii]@[0]);
            }
            assert forall|jj: int| 1 <= jj < n2 implies #[trigger] cell_distance_ok(
                a,
                b,
                distance_cache@,
                0,
                jj,
            ) by {
                assert(cell_distance_ok(a, b, pre_dist, 0, jj));
                assert(distance_cache@[0]@[jj] == pre_dist[0]@[jj]);
            }
            assert forall|jj: int| 1 <= jj < n2 implies #[trigger] cell_decision_ok(
                a,
                b,
                actions_cache@,
                0,
                jj,
            ) by {
                assert(cell_decision_ok(a, b, pre_act, 0, jj));
                assert(actions_cache@[0]@[jj] == pre_act[0]@[jj]);
            }
        }
        n2 = n2 + 1;
    }

    let mut n1: usize = 1;
    while n1 <= n
        invariant
            1 <= n1 <= n + 1,
            n == a.len(),
            m == b.len(),
            n < u32::MAX,
            m < u32::MAX,
            a == source@,
            b == destination@,
            table_dims(distance_cache@, n as int + 1, m as int + 1),
            table_dims(actions_cache@, n as int + 1, m as int + 1),
            cell_distance_ok(a, b, distance_cache@, 0, 0),
            forall|ii: int| 1 <= ii <= n ==> #[trigger] cell_distance_ok(
                a,
                b,
                distance_cache@,
                ii,
                0,
            ),
            forall|ii: int| 1 <= ii <= n ==> #[trigger] cell_decision_ok(
                a,
                b,
                actions_cache@,
                ii,
                0,
            ),
            forall|jj: int| 1 <= jj <= m ==> #[trigger] cell_distance_ok(
                a,
                b,
                distance_cache@,
                0,
                jj,
            ),
            forall|jj: int| 1 <= jj <= m ==> #[trigger] cell_decision_ok(
                a,
                b,
                actions_cache@,
                0,
                jj,
            ),
            forall|ii: int, jj: int| 1 <= ii < n1 && 1 <= jj <= m
                ==> #[trigger] cell_distance_ok(a, b, distance_cache@, ii, jj),
            forall|ii: int, jj: int| 1 <= ii < n1 && 1 <= jj <= m
                ==> #[trigger] cell_decision_ok(a, b, actions_cache@, ii, jj),
        decreases n + 1 - n1,
    {
        let mut n2: usize = 1;
        while n2 <= m
            invariant
                1 <= n1 <= n,
                1 <= n2 <= m + 1,
                n == a.len(),
                m == b.len(),
                n < u32::MAX,
                m < u32::MAX,
                a == source@,
                b == destination@,
                table_dims(distance_cache@, n as int + 1, m as int + 1),
                table_dims(actions_cache@, n as int + 1, m as int + 1),
                cell_distance_ok(a, b, distance_cache@, 0, 0),
                forall|ii: int| 1 <= ii <= n ==> #[trigger] cell_distance_ok(
                    a,
                    b,
                    distance_cache@,
                    ii,
                    0,
                ),
                forall|ii: int| 1 <= ii <= n ==> #[trigger] cell_decision_ok(
                    a,
                    b,
                    actions_cache@,
                    ii,
                    0,
                ),
                forall|jj: int| 1 <= jj <= m ==> #[trigger] cell_distance_ok(
                    a,
                    b,
                    distance_cache@,
                    0,
                    jj,
                ),
                forall|jj: int| 1 <= jj <= m ==> #[trigger] cell_decision_ok(
                    a,
                    b,
                    actions_cache@,
                    0,
                    jj,
                ),
                forall|ii: int, jj: int| 1 <= ii < n1 && 1 <= jj <= m
                    ==> #[trigger] cell_distance_ok(a, b, distance_cache@, ii, jj),
                forall|ii: int, jj: int| 1 <= ii < n1 && 1 <= jj <= m
                    ==> #[trigger] cell_decision_ok(a, b, actions_cache@, ii, jj),
                forall|jj: int| 1 <= jj < n2 ==> #[trigger] cell_distance_ok(
                    a,
                    b,
                    distance_cache@,
                    n1 as int,
                    jj,
                ),
                forall|jj: int| 1 <= jj < n2 ==> #[trigger] cell_decision_ok(
                    a,
                    b,
                    actions_cache@,
                    n1 as int,
                    jj,
                ),
            decreases m + 1 - n2,
        {
            let ghost pre_dist = distance_cache@;
            let ghost pre_act = actions_cache@;
            if source[n1 - 1] == destination[n2 - 1] {
                proof {
                    assert(cell_distance_ok(a, b, distance_cache@, n1 as int - 1, n2 as int - 1));
                }
                let diagonal = distance_cache[n1 - 1][n2 - 1].unwrap();
                distance_cache[n1][n2] = Some(diagonal);
                actions_cache[n1][n2] = Some(Action::Match(source[n1 - 1]));
                proof {
                    lemma_edit_dist_prefix_unfold(a, b, n1 as int, n2 as int);
                    assert(cell_distance_ok(a, b, distance_cache@, n1 as int, n2 as int));
                    assert(cell_decision_ok(a, b, actions_cache@, n1 as int, n2 as int));
                }
            } else {
                proof {
                    assert(cell_distance_ok(a, b, distance_cache@, n1 as int, n2 as int - 1));
                    assert(cell_distance_ok(a, b, distance_cache@, n1 as int - 1, n2 as int));
                    assert(cell_distance_ok(a, b, distance_cache@, n1 as int - 1, n2 as int - 1));
                    lemma_edit_dist_le_max(a.take(n1 as int), b.take(n2 as int - 1));
                    lemma_edit_dist_le_max(a.take(n1 as int - 1), b.take(n2 as int));
                    lemma_edit_dist_le_max(a.take(n1 as int - 1), b.take(n2 as int - 1));
                }
                let add_char: u32 = 1 + distance_cache[n1][n2 - 1].unwrap();
                let remove_char: u32 = 1 + distance_cache[n1 - 1][n2].unwrap();
                let substitute_char: u32 = 1 + distance_cache[n1 - 1][n2 - 1].unwrap();

                let d = min(add_char, remove_char, substitute_char);
                distance_cache[n1][n2] = Some(d);
                let act: Action = if d == add_char {
                    Action::Insert(destination[n2 - 1])
                } else if d == remove_char {
                    Action::Delete(source[n1 - 1])
                } else {
                    Action::Substitute(source[n1 - 1], destination[n2 - 1])
                };
                actions_cache[n1][n2] = Some(act);
                proof {
                    lemma_edit_dist_prefix_unfold(a, b, n1 as int, n2 as int);
                    assert(cell_distance_ok(a, b, distance_cache@, n1 as int, n2 as int));
                    assert(cell_decision_ok(a, b, actions_cache@, n1 as int, n2 as int));
                }
            }
            proof {
                assert(distance_cache@[0]@[0] == pre_dist[0]@[0]);
                assert(cell_distance_ok(a, b, distance_cache@, 0, 0));
                assert forall|ii: int| 1 <= ii <= n implies #[trigger] cell_distance_ok(
                    a,
                    b,
                    distance_cache@,
                    ii,
                    0,
                ) by {
                    assert(cell_distance_ok(a, b, pre_dist, ii, 0));
                    assert(distance_cache@[ii]@[0] == pre_dist[ii]@[0]);
                }
                assert forall|ii: int| 1 <= ii <= n implies #[trigger] cell_decision_ok(
                    a,
                    b,
                    actions_cache@,
                    ii,
                    0,
                ) by {
                    assert(cell_decision_ok(a, b, pre_act, ii, 0));
                    assert(actions_cache@[ii]@[0] == pre_act[ii]@[0]);
                }
                assert forall|jj: int| 1 <= jj <= m implies #[trigger] cell_distance_ok(
                    a,
                    b,
                    distance_cache@,
                    0,
                    jj,
                ) by {
                    assert(cell_distance_ok(a, b, pre_dist, 0, jj));
                    assert(distance_cache@[0]@[jj] == pre_dist[0]@[jj]);
                }
                assert forall|jj: int| 1 <= jj <= m implies #[trigger] cell_decision_ok(
                    a,
                    b,
                    actions_cache@,
                    0,
                    jj,
                ) by {
                    assert(cell_decision_ok(a, b, pre_act, 0, jj));
                    assert(actions_cache@[0]@[jj] == pre_act[0]@[jj]);
                }
                assert forall|ii: int, jj: int| 1 <= ii < n1 && 1 <= jj <= m
                    implies #[trigger] cell_distance_ok(a, b, distance_cache@, ii, jj) by {
                    assert(cell_distance_ok(a, b, pre_dist, ii, jj));
                    assert(distance_cache@[ii]@[jj] == pre_dist[ii]@[jj]);
                }
                assert forall|ii: int, jj: int| 1 <= ii < n1 && 1 <= jj <= m
                    implies #[trigger] cell_decision_ok(a, b, actions_cache@, ii, jj) by {
                    assert(cell_decision_ok(a, b, pre_act, ii, jj));
                    assert(actions_cache@[ii]@[jj] == pre_act[ii]@[jj]);
                }
                assert forall|jj: int| 1 <= jj < n2 implies #[trigger] cell_distance_ok(
                    a,
                    b,
                    distance_cache@,
                    n1 as int,
                    jj,
                ) by {
                    assert(cell_distance_ok(a, b, pre_dist, n1 as int, jj));
                    assert(distance_cache@[n1 as int]@[jj] == pre_dist[n1 as int]@[jj]);
                }
                assert forall|jj: int| 1 <= jj < n2 implies #[trigger] cell_decision_ok(
                    a,
                    b,
                    actions_cache@,
                    n1 as int,
                    jj,
                ) by {
                    assert(cell_decision_ok(a, b, pre_act, n1 as int, jj));
                    assert(actions_cache@[n1 as int]@[jj] == pre_act[n1 as int]@[jj]);
                }
            }
            n2 = n2 + 1;
        }
        n1 = n1 + 1;
    }

    proof {
        assert forall|ii: int, jj: int|
            0 <= ii <= a.len() && 0 <= jj <= b.len() && !(ii == 0 && jj == 0)
                implies #[trigger] cell_decision_ok(a, b, actions_cache@, ii, jj) by {
            if ii == 0 {
                assert(cell_decision_ok(a, b, actions_cache@, 0, jj));
            } else if jj == 0 {
                assert(cell_decision_ok(a, b, actions_cache@, ii, 0));
            } else {
                assert(cell_decision_ok(a, b, actions_cache@, ii, jj));
            }
        };
        assert(decisions_ok(a, b, actions_cache@));
    }

    let path = trace_action(source, destination, &actions_cache);
    proof {
        assert(cell_distance_ok(a, b, distance_cache@, n as int, m as int));
        assert(a.take(n as int) =~= a);
        assert(b.take(m as int) =~= b);
    }
    let distance = distance_cache[n][m].unwrap();
    (distance, path)
}

} // verus!
