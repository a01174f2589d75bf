use minishell::shell::{DirStatus, EditorAction, InputEvent, Shell};

#[test]
fn char_and_backspace_edit_like_a_stack() {
    let mut sh = Shell::new();
    let _ = sh.begin_input_cycle();
    sh.handle_char_input('l');
    sh.handle_char_input('s');
    sh.handle_char_input('x');
    sh.handle_backspace();
    assert_eq!(sh.input, "ls");
}

#[test]
fn backspace_on_empty_buffer_is_noop() {
    let mut sh = Shell::new();
    let _ = sh.begin_input_cycle();
    sh.handle_backspace();
    assert_eq!(sh.input, "");
}

#[test]
fn replay_edits_matches_stack_result() {
    let mut sh = Shell::new();
    let _ = sh.begin_input_cycle();
    let events = vec![
        InputEvent::CharInput('a'),
        InputEvent::CharInput('b'),
        InputEvent::Backspace,
        InputEvent::CharInput('c'),
        InputEvent::Backspace,
        InputEvent::Backspace,
        InputEvent::Backspace,
        InputEvent::CharInput('d'),
    ];
    sh.replay_edits(&events);
    assert_eq!(sh.input, "d");
}

#[test]
fn interrupt_clears_buffer_and_keeps_history() {
    let mut sh = Shell::new();
    sh.handle_char_input('l');
    sh.handle_char_input('s');
    sh.handle_enter();
    let _ = sh.begin_input_cycle();
    sh.handle_char_input('x');
    sh.handle_interrupt();
    assert_eq!(sh.input, "");
    assert_eq!(sh.history.len(), 1);
}

#[test]
fn up_then_down_on_empty_history_is_noop() {
    let mut sh = Shell::new();
    let index = sh.begin_input_cycle();
    assert_eq!(index, 0);
    sh.handle_char_input('a');
    let i1 = sh.handle_up(index);
    assert_eq!(i1, 0);
    assert_eq!(sh.input, "a");
    let i2 = sh.handle_down(i1);
    assert_eq!(i2, 0);
    assert_eq!(sh.input, "a");
    assert_eq!(sh.history.len(), 0);
}

#[test]
fn up_stages_live_edit_and_down_restores_it() {
    let mut sh = Shell::new();
    sh.input = String::from("ls");
    sh.handle_enter();
    sh.input = String::from("pwd");
    sh.handle_enter();
    let index = sh.begin_input_cycle();
    assert_eq!(index, 2);
    sh.handle_char_input('a');
    sh.handle_char_input('b');

    let i1 = sh.handle_up(index);
    assert_eq!(i1, 1);
    assert_eq!(sh.input, "pwd");
    assert_eq!(sh.history.len(), 3);

    let i2 = sh.handle_up(i1);
    assert_eq!(i2, 0);
    assert_eq!(sh.input, "ls");

    let i3 = sh.handle_up(i2);
    assert_eq!(i3, 0);
    assert_eq!(sh.input, "ls");

    let i4 = sh.handle_down(i3);
    assert_eq!(i4, 1);
    assert_eq!(sh.input, "pwd");

    let i5 = sh.handle_down(i4);
    assert_eq!(i5, 2);
    assert_eq!(sh.input, "ab");

    let i6 = sh.handle_down(i5);
    assert_eq!(i6, 3);
    assert_eq!(sh.input, "ab");

    let i7 = sh.handle_down(i6);
    assert_eq!(i7, 3);
    assert_eq!(sh.input, "ab");
}

#[test]
fn handle_arrow_replaces_buffer_in_range_only() {
    let mut sh = Shell::new();
    sh.input = String::from("one");
    sh.handle_enter();
    sh.input = String::from("two");
    sh.handle_arrow(0);
    assert_eq!(sh.input, "one");
    sh.input = String::from("two");
    sh.handle_arrow(5);
    assert_eq!(sh.input, "two");
}

#[test]
fn handle_key_steps_the_state_machine() {
    let mut sh = Shell::new();
    let index = sh.begin_input_cycle();
    let (i1, a1) = sh.handle_key(index, InputEvent::CharInput('l'));
    assert_eq!(a1, EditorAction::Continue);
    let (i2, a2) = sh.handle_key(i1, InputEvent::CharInput('s'));
    assert_eq!(a2, EditorAction::Continue);
    let (i3, a3) = sh.handle_key(i2, InputEvent::Tab);
    assert_eq!(a3, EditorAction::RunCompletion);
    assert_eq!(sh.input, "ls");
    let (_i4, a4) = sh.handle_key(i3, InputEvent::Enter);
    assert_eq!(a4, EditorAction::Finalize);
    assert_eq!(sh.input, "ls");
    assert_eq!(sh.history.len(), 1);
}

#[test]
fn cd_to_existing_directory_moves_cwd() {
    let mut sh = Shell::new();
    let args = vec![String::from("tmp")];
    let r = sh.change_directory(&args, DirStatus::Exists);
    assert!(r.is_ok());
    assert_eq!(sh.cwd, "/tmp");
    let args2 = vec![String::from("logs")];
    let r2 = sh.change_directory(&args2, DirStatus::Exists);
    assert!(r2.is_ok());
    assert_eq!(sh.cwd, "/tmp/logs");
}

#[test]
fn cd_to_missing_directory_reports_not_found_and_keeps_cwd() {
    let mut sh = Shell::new();
    let args = vec![String::from("nope")];
    let r = sh.change_directory(&args, DirStatus::Missing);
    assert_eq!(r, Err(minishell::errors::ShellError::NotFound));
    assert_eq!(sh.cwd, "/");
}

#[test]
fn cd_denied_reports_permission_denied_and_keeps_cwd() {
    let mut sh = Shell::new();
    let args = vec![String::from("secret")];
    let r = sh.change_directory(&args, DirStatus::Denied);
    assert_eq!(r, Err(minishell::errors::ShellError::PermissionDenied));
    assert_eq!(sh.cwd, "/");
}

#[test]
fn cd_without_argument_goes_to_root() {
    let mut sh = Shell::new();
    let args = vec![String::from("tmp")];
    sh.change_directory(&args, DirStatus::Exists).unwrap();
    let none: Vec<String> = vec![];
    sh.change_directory(&none, DirStatus::Exists).unwrap();
    assert_eq!(sh.cwd, "/");
}

#[test]
fn cd_with_absolute_argument_uses_it_verbatim() {
    let mut sh = Shell::new();
    let args = vec![String::from("/usr/share")];
    sh.change_directory(&args, DirStatus::Exists).unwrap();
    assert_eq!(sh.cwd, "/usr/share");
}

#[test]
fn cd_changes_the_directory_completion_lists() {
    let mut sh = Shell::new();
    let frag = String::from("doc");
    assert_eq!(sh.completion_dir(&frag), "/");
    let args = vec![String::from("tmp")];
    sh.change_directory(&args, DirStatus::Exists).unwrap();
    assert_eq!(sh.completion_dir(&frag), "/tmp");
    let nested = String::from("src/ma");
    assert_eq!(sh.completion_dir(&nested), "/tmp/src");
    let abs = String::from("/etc/hos");
    assert_eq!(sh.completion_dir(&abs), "/etc");
}

#[test]
fn prompt_line_shows_cwd_and_buffer() {
    let mut sh = Shell::new();
    sh.handle_char_input('l');
    sh.handle_char_input('s');
    assert_eq!(sh.prompt_line(), "/> ls");
}

#[test]
fn sync_cwd_adopts_the_given_directory() {
    let mut sh = Shell::new();
    sh.sync_cwd(String::from("/home/someone"));
    assert_eq!(sh.cwd, "/home/someone");
}
