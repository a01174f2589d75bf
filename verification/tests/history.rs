use minishell::errors::ShellError;
use minishell::history::History;
use minishell::shell::Shell;

#[test]
fn append_and_get_back() {
    let mut h = History::new();
    assert_eq!(h.len(), 0);
    h.append(String::from("ls"));
    h.append(String::from("pwd"));
    assert_eq!(h.len(), 2);
    assert_eq!(h.get(0).unwrap().as_str(), "ls");
    assert_eq!(h.get(1).unwrap().as_str(), "pwd");
    assert_eq!(h.last().unwrap().as_str(), "pwd");
}

#[test]
fn get_past_end_is_out_of_range() {
    let mut h = History::new();
    h.append(String::from("ls"));
    assert_eq!(h.get(1), Err(ShellError::OutOfRange));
    assert_eq!(h.get(7), Err(ShellError::OutOfRange));
}

#[test]
fn no_two_adjacent_equal_entries() {
    let mut h = History::new();
    let lines = vec![
        String::from("ls"),
        String::from("ls"),
        String::from("pwd"),
        String::from("pwd"),
        String::from("ls"),
        String::from("ls"),
        String::from("ls"),
    ];
    h.append_all(&lines);
    assert_eq!(h.len(), 3);
    assert_eq!(h.get(0).unwrap().as_str(), "ls");
    assert_eq!(h.get(1).unwrap().as_str(), "pwd");
    assert_eq!(h.get(2).unwrap().as_str(), "ls");
    for i in 1..h.len() {
        assert_ne!(h.get(i - 1).unwrap(), h.get(i).unwrap());
    }
}

#[test]
fn enter_skips_blank_and_repeated_lines() {
    let mut sh = Shell::new();
    sh.input = String::from("   ");
    sh.handle_enter();
    assert_eq!(sh.history.len(), 0);
    sh.input = String::from("ls");
    sh.handle_enter();
    sh.handle_enter();
    assert_eq!(sh.history.len(), 1);
    sh.input = String::from("pwd");
    sh.handle_enter();
    assert_eq!(sh.history.len(), 2);
}
