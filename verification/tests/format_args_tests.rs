use edit_distance::args::{check_args, usage_line, ArgError};
use edit_distance::format::{trace_long, trace_short};
use edit_distance::model::Action;

fn kitten_trace() -> Vec<Action> {
    vec![
        Action::Substitute('k', 's'),
        Action::Match('i'),
        Action::Match('t'),
        Action::Match('t'),
        Action::Substitute('e', 'i'),
        Action::Match('n'),
        Action::Insert('g'),
    ]
}

fn to_string(v: Vec<char>) -> String {
    v.into_iter().collect()
}

#[test]
fn long_form_lists_one_line_per_action() {
    let text = to_string(trace_long(&kitten_trace()));
    let expected = "\tSUBSTITUTE 'k' with 's'\n\tIGNORE 'i'\n\tIGNORE 't'\n\tIGNORE 't'\n\tSUBSTITUTE 'e' with 'i'\n\tIGNORE 'n'\n\tADD 'g'\n";
    assert_eq!(text, expected);
}

#[test]
fn long_form_of_empty_trace_is_empty() {
    assert_eq!(to_string(trace_long(&vec![])), "");
}

#[test]
fn short_form_uses_symbols() {
    let text = to_string(trace_short(&kitten_trace()));
    assert_eq!(text, "( -k +s ) i t t ( -e +i ) n +g ");
}

#[test]
fn short_form_marks_inserts_and_deletes() {
    let trace = vec![Action::Delete('a'), Action::Insert('b'), Action::Match('c')];
    assert_eq!(to_string(trace_short(&trace)), "-a +b c ");
    let long = to_string(trace_long(&trace));
    assert_eq!(long, "\tREMOVE 'a'\n\tADD 'b'\n\tIGNORE 'c'\n");
}

#[test]
fn missing_first_argument_detected() {
    assert_eq!(check_args(1), Err(ArgError::MissingString1));
    assert_eq!(check_args(0), Err(ArgError::MissingString1));
    assert_eq!(
        ArgError::MissingString1.message(),
        "ERROR: Invalid Args - expected STRING1"
    );
}

#[test]
fn missing_second_argument_detected() {
    assert_eq!(check_args(2), Err(ArgError::MissingString2));
    let message = ArgError::MissingString2.message();
    assert_eq!(message, "ERROR: Invalid Args - expected STRING2");
    assert!(message.contains("STRING2"));
}

#[test]
fn two_arguments_accepted() {
    assert_eq!(check_args(3), Ok(()));
    assert_eq!(check_args(7), Ok(()));
}

#[test]
fn usage_line_names_the_program() {
    assert_eq!(usage_line("foo"), "Usage: foo <STRING1> <STRING2>");
}
