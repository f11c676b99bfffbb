use edit_distance::engine::{levenshtein, min, trace_action};
use edit_distance::model::Action;

fn chars(s: &str) -> Vec<char> {
    s.chars().collect()
}

/// Apply a trace to a source text the way the actions describe it: keep on
/// a match, add on an insertion, drop on a deletion, replace on a
/// substitution.
fn apply(source: &[char], trace: &[Action]) -> Option<Vec<char>> {
    let mut out: Vec<char> = Vec::new();
    let mut i: usize = 0;
    for action in trace {
        match *action {
            Action::Match(x) => {
                if i >= source.len() || source[i] != x {
                    return None;
                }
                out.push(x);
                i += 1;
            }
            Action::Insert(y) => {
                out.push(y);
            }
            Action::Delete(x) => {
                if i >= source.len() || source[i] != x {
                    return None;
                }
                i += 1;
            }
            Action::Substitute(x, y) => {
                if i >= source.len() || source[i] != x {
                    return None;
                }
                out.push(y);
                i += 1;
            }
        }
    }
    if i == source.len() {
        Some(out)
    } else {
        None
    }
}

fn non_match_count(trace: &[Action]) -> u32 {
    let mut n: u32 = 0;
    for action in trace {
        if !matches!(action, Action::Match(_)) {
            n += 1;
        }
    }
    n
}

#[test]
fn min_picks_smallest() {
    assert_eq!(min(3, 1, 2), 1);
    assert_eq!(min(1, 2, 3), 1);
    assert_eq!(min(3, 2, 1), 1);
    assert_eq!(min(5, 5, 5), 5);
}

#[test]
fn kitten_sitting_distance_and_trace() {
    let (distance, trace) = levenshtein(&chars("kitten"), &chars("sitting"));
    assert_eq!(distance, 3);
    assert_eq!(
        trace,
        vec![
            Action::Substitute('k', 's'),
            Action::Match('i'),
            Action::Match('t'),
            Action::Match('t'),
            Action::Substitute('e', 'i'),
            Action::Match('n'),
            Action::Insert('g'),
        ]
    );
}

#[test]
fn empty_to_empty() {
    let (distance, trace) = levenshtein(&chars(""), &chars(""));
    assert_eq!(distance, 0);
    assert!(trace.is_empty());
}

#[test]
fn empty_source_all_inserts() {
    let (distance, trace) = levenshtein(&chars(""), &chars("abc"));
    assert_eq!(distance, 3);
    assert_eq!(
        trace,
        vec![Action::Insert('a'), Action::Insert('b'), Action::Insert('c')]
    );
}

#[test]
fn empty_destination_all_deletes() {
    let (distance, trace) = levenshtein(&chars("abc"), &chars(""));
    assert_eq!(distance, 3);
    assert_eq!(
        trace,
        vec![Action::Delete('a'), Action::Delete('b'), Action::Delete('c')]
    );
}

#[test]
fn equal_inputs_distance_zero_all_matches() {
    let (distance, trace) = levenshtein(&chars("same"), &chars("same"));
    assert_eq!(distance, 0);
    assert_eq!(trace.len(), 4);
    for action in &trace {
        assert!(matches!(action, Action::Match(_)));
    }
}

#[test]
fn distance_value_is_symmetric() {
    let (d1, t1) = levenshtein(&chars("kitten"), &chars("sitting"));
    let (d2, t2) = levenshtein(&chars("sitting"), &chars("kitten"));
    assert_eq!(d1, d2);
    assert_eq!(non_match_count(&t1), d1);
    assert_eq!(non_match_count(&t2), d2);
}

#[test]
fn triangle_inequality_on_words() {
    let a = chars("kitten");
    let b = chars("mitten");
    let c = chars("sitting");
    let (d_ac, _) = levenshtein(&a, &c);
    let (d_ab, _) = levenshtein(&a, &b);
    let (d_bc, _) = levenshtein(&b, &c);
    assert!(d_ac <= d_ab + d_bc);
}

#[test]
fn trace_applies_back_to_destination() {
    let source = chars("kitten");
    let destination = chars("sitting");
    let (_, trace) = levenshtein(&source, &destination);
    assert_eq!(apply(&source, &trace), Some(destination));

    let source = chars("flaw");
    let destination = chars("lawn");
    let (distance, trace) = levenshtein(&source, &destination);
    assert_eq!(distance, 2);
    assert_eq!(apply(&source, &trace), Some(destination));
}

#[test]
fn tie_break_prefers_insert() {
    // At the last cell an insertion, a deletion and a substitution all cost
    // the same; the insertion must win.
    let (distance, trace) = levenshtein(&chars("ab"), &chars("ba"));
    assert_eq!(distance, 2);
    assert_eq!(
        trace,
        vec![Action::Delete('a'), Action::Match('b'), Action::Insert('a')]
    );
}

#[test]
fn trace_action_walks_decision_table() {
    // Tables for source "a", destination "b": row and column zero carry the
    // base decisions, the far corner a substitution.
    let action_cache: Vec<Vec<Option<Action>>> = vec![
        vec![Some(Action::Match('_')), Some(Action::Insert('b'))],
        vec![Some(Action::Delete('a')), Some(Action::Substitute('a', 'b'))],
    ];
    let path = trace_action(&chars("a"), &chars("b"), &action_cache);
    assert_eq!(path, vec![Action::Substitute('a', 'b')]);
}
