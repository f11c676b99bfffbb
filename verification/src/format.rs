//! Rendering edit traces: a verbose line-per-action form and a compact
//! single-line form. Pure formatting; the trace is not changed.

use vstd::prelude::*;

use crate::model::Action;

verus! {

/// The verbose line for one action: a tab, the action's name, and the
/// character(s) involved in single quotes, ended by a newline.
pub open spec fn long_line(x: Action) -> Seq<char> {
    match x {
        Action::Match(c) => seq!['\t', 'I', 'G', 'N', 'O', 'R', 'E', ' ', '\''] + seq![c] + seq![
            '\'',
            '\n',
        ],
        Action::Insert(c) => seq!['\t', 'A', 'D', 'D', ' ', '\''] + seq![c] + seq!['\'', '\n'],
        Action::Delete(c) => seq!['\t', 'R', 'E', 'M', 'O', 'V', 'E', ' ', '\''] + seq![c] + seq![
            '\'',
            '\n',
        ],
        Action::Substitute(c, e) => seq![
            '\t',
            'S',
            'U',
            'B',
            'S',
            'T',
            'I',
            'T',
            'U',
            'T',
            'E',
            ' ',
            '\'',
        ] + seq![c] + seq!['\'', ' ', 'w', 'i', 't', 'h', ' ', '\''] + seq![e] + seq!['\'', '\n'],
    }
}

/// The verbose form of a whole trace: one line per action, in order.
pub open spec fn long_text(t: Seq<Action>) -> Seq<char>
    decreases t.len(),
{
    if t.len() == 0 {
        Seq::<char>::empty()
    } else {
        long_text(t.drop_last()) + long_line(t.last())
    }
}

/// The compact symbol for one action: the character for a match, `+` or `-`
/// before the character for an insertion or a deletion, and `( -x +y )` for
/// a substitution, each followed by a space.
pub open spec fn short_piece(x: Action) -> Seq<char> {
    match x {
        Action::Match(c) => seq![c] + seq![' '],
        Action::Insert(c) => seq!['+'] + seq![c] + seq![' '],
        Action::Delete(c) => seq!['-'] + seq![c] + seq![' '],
        Action::Substitute(c, e) => seq!['(', ' ', '-'] + seq![c] + seq![' ', '+'] + seq![e]
            + seq![' ', ')', ' '],
    }
}

/// The compact form of a whole trace: the actions' symbols, in order.
pub open spec fn short_text(t: Seq<Action>) -> Seq<char>
    decreases t.len(),
{
    if t.len() == 0 {
        Seq::<char>::empty()
    } else {
        short_text(t.drop_last()) + short_piece(t.last())
    }
}

/// Render the verbose form of a trace, one line per action.
#[verifier::rlimit(60)]
pub fn trace_long(trace: &Vec<Action>) -> (out: Vec<char>)
    ensures
        out@ == long_text(trace@),
{
    let mut out: Vec<char> = Vec::new();
    let mut idx: usize = 0;
    proof {
        assert(trace@.take(0) =~= Seq::<Action>::empty());
    }
    while idx < trace.len()
        invariant
            idx <= trace@.len(),
            out@ == long_text(trace@.take(idx as int)),
        decreases trace@.len() - idx,
    {
        let ghost pre = out@;
        let action = trace[idx];
        out.push('\t');
        match action {
            Action::Match(c) => {
                out.push('I');
                out.push('G');
                out.push('N');
                out.push('O');
                out.push('R');
                out.push('E');
                out.push(' ');
                out.push('\'');
                out.push(c);
                out.push('\'');
            },
            Action::Insert(c) => {
                out.push('A');
                out.push('D');
                out.push('D');
                out.push(' ');
                out.push('\'');
                out.push(c);
                out.push('\'');
            },
            Action::Delete(c) => {
                out.push('R');
                out.push('E');
                out.push('M');
                out.push('O');
                out.push('V');
                out.push('E');
                out.push(' ');
                out.push('\'');
                out.push(c);
                out.push('\'');
            },
            Action::Substitute(c, e) => {
                out.push('S');
                out.push('U');
                out.push('B');
                out.push('S');
                out.push('T');
                out.push('I');
                out.push('T');
                out.push('U');
                out.push('T');
                out.push('E');
                out.push(' ');
                out.push('\'');
                out.push(c);
                out.push('\'');
                out.push(' ');
                out.push('w');
                out.push('i');
                out.push('t');
                out.push('h');
                out.push(' ');
                out.push('\'');
                out.push(e);
                out.push('\'');
            },
        }
        out.push('\n');
        proof {
            assert(out@ =~= pre + long_line(trace@[idx as int]));
            assert(trace@.take(idx as int + 1).drop_last() =~= trace@.take(idx as int));
            assert(trace@.take(idx as int + 1).last() == trace@[idx as int]);
        }
        idx = idx + 1;
    }
    proof {
        assert(trace@.take(trace@.len() as int) =~= trace@);
    }
    out
}

/// Render the compact form of a trace on one line.
#[verifier::rlimit(60)]
pub fn trace_short(trace: &Vec<Action>) -> (out: Vec<char>)
    ensures
        out@ == short_text(trace@),
{
    let mut out: Vec<char> = Vec::new();
    let mut idx: usize = 0;
    proof {
        assert(trace@.take(0) =~= Seq::<Action>::empty());
    }
    while idx < trace.len()
        invariant
            idx <= trace@.len(),
            out@ == short_text(trace@.take(idx as int)),
        decreases trace@.len() - idx,
    {
        let ghost pre = out@;
        let action = trace[idx];
        match action {
            Action::Match(c) => {
                out.push(c);
            },
            Action::Insert(c) => {
                out.push('+');
                out.push(c);
            },
            Action::Delete(c) => {
                out.push('-');
                out.push(c);
            },
            Action::Substitute(c, e) => {
                out.push('(');
                out.push(' ');
                out.push('-');
                out.push(c);
                out.push(' ');
                out.push('+');
                out.push(e);
                out.push(' ');
                out.push(')');
            },
        }
        out.push(' ');
        proof {
            assert(out@ =~= pre + short_piece(trace@[idx as int]));
            assert(trace@.take(idx as int + 1).drop_last() =~= trace@.take(idx as int));
            assert(trace@.take(idx as int + 1).last() == trace@[idx as int]);
        }
        idx = idx + 1;
    }
    proof {
        assert(trace@.take(trace@.len() as int) =~= trace@);
    }
    out
}

} // verus!
