use deformpath::app::NO_OF_TABS;
use deformpath::update::update_core::{
    is_key, split_spaces_exec, to_ascii_lowercase, update, word_eq, word_is, CliState, KeyInput,
    KeyOutcome,
};

fn chars(s: &str) -> Vec<char> {
    s.chars().collect()
}

fn type_text(app: &mut CliState, s: &str) {
    for c in s.chars() {
        update(app, KeyInput::Char(c));
    }
}

#[test]
fn new_state_is_empty() {
    let app = CliState::new();
    assert!(!app.should_quit);
    assert_eq!(app.tab_no, 0);
    assert!(app.curr_input.is_empty());
    assert_eq!(app.curr_error, "");
}

#[test]
fn esc_quits() {
    let mut app = CliState::new();
    let r = update(&mut app, KeyInput::Esc);
    assert!(matches!(r, KeyOutcome::Handled));
    assert!(app.should_quit);
    update(&mut app, KeyInput::Char('a'));
    assert!(app.should_quit);
}

#[test]
fn tab_cycles_through_tabs() {
    let mut app = CliState::new();
    update(&mut app, KeyInput::Tab);
    assert_eq!(app.tab_no, 1);
    update(&mut app, KeyInput::Tab);
    assert_eq!(app.tab_no, 0);
    // one press more than there are extra tabs comes back to the start
    for _ in 0..(NO_OF_TABS + 1) {
        update(&mut app, KeyInput::Tab);
    }
    assert_eq!(app.tab_no, 0);
}

#[test]
fn characters_and_backspace_edit_input() {
    let mut app = CliState::new();
    type_text(&mut app, "ab");
    assert_eq!(app.curr_input, chars("ab"));
    update(&mut app, KeyInput::Backspace);
    assert_eq!(app.curr_input, chars("a"));
    update(&mut app, KeyInput::Backspace);
    update(&mut app, KeyInput::Backspace);
    assert!(app.curr_input.is_empty());
}

#[test]
fn type_then_erase_restores_input() {
    let mut app = CliState::new();
    type_text(&mut app, "set");
    let before = app.curr_input.clone();
    update(&mut app, KeyInput::Char('x'));
    update(&mut app, KeyInput::Backspace);
    assert_eq!(app.curr_input, before);
    assert_eq!(app.tab_no, 0);
    assert!(!app.should_quit);
}

#[test]
fn enter_with_one_word_is_refused() {
    let mut app = CliState::new();
    type_text(&mut app, "generate");
    let r = update(&mut app, KeyInput::Enter);
    assert!(matches!(r, KeyOutcome::Handled));
    assert_eq!(
        app.curr_error,
        "Invalid command! - Command format is [cmd] [variable] [OPTIONAL: variable]"
    );
    assert_eq!(app.curr_input, chars("generate"));
}

#[test]
fn enter_with_four_words_is_refused() {
    let mut app = CliState::new();
    type_text(&mut app, "a b c d");
    let r = update(&mut app, KeyInput::Enter);
    assert!(matches!(r, KeyOutcome::Handled));
    assert!(app.curr_error.starts_with("Invalid command!"));
}

#[test]
fn enter_with_two_words_gives_lowercase_command() {
    let mut app = CliState::new();
    type_text(&mut app, "Deform GENERATE");
    match update(&mut app, KeyInput::Enter) {
        KeyOutcome::Command(w) => {
            assert_eq!(w.cmd, chars("deform"));
            assert_eq!(w.var, chars("generate"));
            assert_eq!(w.opt_var, chars("none"));
        }
        KeyOutcome::Handled => panic!("a two word command is accepted"),
    }
    assert_eq!(app.curr_error, "");
}

#[test]
fn enter_with_three_words_keeps_option() {
    let mut app = CliState::new();
    type_text(&mut app, "set shape Circle");
    match update(&mut app, KeyInput::Enter) {
        KeyOutcome::Command(w) => {
            assert_eq!(w.cmd, chars("set"));
            assert_eq!(w.var, chars("shape"));
            assert_eq!(w.opt_var, chars("circle"));
        }
        KeyOutcome::Handled => panic!("a three word command is accepted"),
    }
}

#[test]
fn double_space_makes_an_empty_word() {
    let mut app = CliState::new();
    type_text(&mut app, "set  x");
    match update(&mut app, KeyInput::Enter) {
        KeyOutcome::Command(w) => {
            assert_eq!(w.cmd, chars("set"));
            assert!(w.var.is_empty());
            assert_eq!(w.opt_var, chars("x"));
        }
        KeyOutcome::Handled => panic!("three pieces make a command"),
    }
}

#[test]
fn command_finished_clears_on_success_only() {
    let mut app = CliState::new();
    type_text(&mut app, "load current");
    app.curr_error = String::from("old error");
    app.command_finished(false);
    assert_eq!(app.curr_input, chars("load current"));
    assert_eq!(app.curr_error, "old error");
    app.command_finished(true);
    assert!(app.curr_input.is_empty());
    assert_eq!(app.curr_error, "");
}

#[test]
fn other_keys_change_nothing() {
    let mut app = CliState::new();
    type_text(&mut app, "x");
    let r = update(&mut app, KeyInput::Other);
    assert!(matches!(r, KeyOutcome::Handled));
    assert_eq!(app.curr_input, chars("x"));
    assert_eq!(app.tab_no, 0);
}

#[test]
fn split_on_single_spaces() {
    let pieces = split_spaces_exec(&chars("a bc  d"));
    assert_eq!(pieces, vec![chars("a"), chars("bc"), chars(""), chars("d")]);
    let one = split_spaces_exec(&chars(""));
    assert_eq!(one, vec![chars("")]);
}

#[test]
fn lowercase_only_changes_ascii_capitals() {
    assert_eq!(to_ascii_lowercase(&chars("AbC-Z9é")), chars("abc-z9é"));
}

#[test]
fn word_comparisons() {
    assert!(word_is(&chars("load"), "load"));
    assert!(!word_is(&chars("loads"), "load"));
    assert!(word_eq(&chars("xy"), &chars("xy")));
    assert!(!word_eq(&chars("xy"), &chars("yx")));
    let keys = vec![chars("spacing"), chars("tool_width")];
    assert!(is_key(&chars("tool_width"), &keys));
    assert!(!is_key(&chars("tool"), &keys));
}
