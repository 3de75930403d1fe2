use syma_lsp::protocol::Position;
use syma_lsp::signature::{call_at_position, describe_call, parameters_of_help, Call};

fn call(text: &str, line: u32, character: u32) -> Option<(String, usize)> {
    call_at_position(text, Position { line, character }).map(|c| (c.head, c.commas))
}

fn some(head: &str, commas: usize) -> Option<(String, usize)> {
    Some((head.to_string(), commas))
}

#[test]
fn the_call_of_the_last_bracket_is_found() {
    assert_eq!(call("f[a, b", 0, 6), some("f", 1));
    assert_eq!(call("f[a, b", 0, 3), some("f", 0));
    assert_eq!(call("f[a, g[", 0, 7), some("g", 0));
    assert_eq!(call("f[a, g[x], ", 0, 11), some("g", 1));
}

#[test]
fn the_head_is_the_name_before_the_bracket() {
    assert_eq!(call("1 + foo_1  [x, y, z", 0, 19), some("foo_1", 2));
    assert_eq!(call("été[", 0, 6), some("été", 0));
    assert_eq!(call("f\u{a0}[", 0, 4), some("f", 0));
    assert_eq!(call("a$b[", 0, 4), some("b", 0));
}

#[test]
fn no_call_without_a_name_or_a_bracket() {
    assert_eq!(call("f(a", 0, 3), None);
    assert_eq!(call("[a", 0, 2), None);
    assert_eq!(call("f+[a", 0, 4), None);
    assert_eq!(call("f[a", 0, 1), None);
    assert_eq!(call("f[a", 1, 0), None);
    assert_eq!(call("", 0, 0), None);
}

#[test]
fn calls_reach_over_lines() {
    assert_eq!(call("f[a,\n  b, c", 1, 6), some("f", 2));
    assert_eq!(call("x = 1\nf[a, b", 1, 6), some("f", 1));
}

#[test]
fn a_missing_column_counts_up_to_the_last_character() {
    assert_eq!(call("f[a, b,", 0, 99), some("f", 1));
}

#[test]
fn parameters_stand_in_the_help_text() {
    let names = |help: &str| parameters_of_help(help);
    assert_eq!(
        names("Func[a, b, c] does X"),
        Some(vec!["a".to_string(), "b".to_string(), "c".to_string()])
    );
    assert_eq!(names("f[ x_ ,\ty\u{2003}] [z]"), Some(vec!["x_".to_string(), "y".to_string()]));
    assert_eq!(names("f[a,,]"), Some(vec!["a".to_string(), "".to_string(), "".to_string()]));
    assert_eq!(names("f[ ]"), Some(vec!["".to_string()]));
}

#[test]
fn help_texts_without_parameters() {
    assert_eq!(parameters_of_help("no brackets"), None);
    assert_eq!(parameters_of_help("f[] is empty"), None);
    assert_eq!(parameters_of_help("f[...] is open"), None);
    assert_eq!(parameters_of_help("f[a, b"), None);
    assert_eq!(parameters_of_help("] f["), None);
}

#[test]
fn help_comes_before_signatures() {
    let call = Call { head: "f".to_string(), commas: 2 };
    let help = describe_call(&call, &Some("f[a, b] adds".to_string()), &Some("x_".to_string()));
    assert_eq!(help.label, "f[...]");
    assert_eq!(help.documentation.as_deref(), Some("f[a, b] adds"));
    assert_eq!(help.parameters, Some(vec!["a".to_string(), "b".to_string()]));
    assert_eq!(help.active_signature, 0);
    assert_eq!(help.active_parameter, 2);
}

#[test]
fn signatures_label_calls() {
    let call = Call { head: "f".to_string(), commas: 0 };
    let known = describe_call(&call, &None, &Some("x_, y_".to_string()));
    assert_eq!(known.label, "f[x_, y_]");
    assert_eq!(known.documentation, None);
    assert_eq!(known.parameters, None);
    assert_eq!(known.active_parameter, 0);
    assert_eq!(describe_call(&call, &None, &None).label, "f[...]");
}
