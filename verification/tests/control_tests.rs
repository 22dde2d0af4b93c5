use compose_menu::control::{control_loop_outcome, LoopOutcome};

#[test]
fn quit_line_ends_loop_without_launching() {
    let lines = vec![String::from(":quit"), String::from("1")];
    assert_eq!(control_loop_outcome(&lines, 3), LoopOutcome::Quit);
}

#[test]
fn invalid_lines_reprompt_until_quit() {
    let lines = vec![
        String::from("0"),
        String::from("-1"),
        String::from("abc"),
        String::from("4"),
        String::from(":quit"),
    ];
    assert_eq!(control_loop_outcome(&lines, 3), LoopOutcome::Quit);
}

#[test]
fn invalid_lines_reprompt_until_selection() {
    let lines = vec![String::from("abc"), String::from("0"), String::from("2")];
    assert_eq!(control_loop_outcome(&lines, 3), LoopOutcome::Launched(2));
}

#[test]
fn selection_launches_that_entry_once() {
    let lines = vec![String::from("1"), String::from(":quit"), String::from("3")];
    assert_eq!(control_loop_outcome(&lines, 3), LoopOutcome::Launched(1));
}

#[test]
fn only_invalid_lines_keep_prompting() {
    let lines = vec![String::from("4"), String::from("nope")];
    assert_eq!(control_loop_outcome(&lines, 3), LoopOutcome::Pending);
    let none: Vec<String> = Vec::new();
    assert_eq!(control_loop_outcome(&none, 3), LoopOutcome::Pending);
}
