use minishell::errors::ShellError;
use minishell::pipeline::{dispatch, parse_pipeline, plan_io, Dispatch, StdinSpec, StdoutSpec};
use minishell::shell::Shell;

#[test]
fn parse_splits_stages_and_tokens() {
    let stages = parse_pipeline("cat notes.txt | grep -i todo | wc -l");
    assert_eq!(stages.len(), 3);
    assert_eq!(stages[0].command, "cat");
    assert_eq!(stages[0].args, vec![String::from("notes.txt")]);
    assert_eq!(stages[1].command, "grep");
    assert_eq!(stages[1].args, vec![String::from("-i"), String::from("todo")]);
    assert_eq!(stages[2].command, "wc");
    assert_eq!(stages[2].args, vec![String::from("-l")]);
}

#[test]
fn parse_skips_empty_segments() {
    let stages = parse_pipeline("a |  | b");
    assert_eq!(stages.len(), 2);
    assert_eq!(stages[0].command, "a");
    assert_eq!(stages[1].command, "b");
    let none = parse_pipeline("   ");
    assert_eq!(none.len(), 0);
}

#[test]
fn parse_keeps_extra_whitespace_out_of_tokens() {
    let stages = parse_pipeline("  echo   hi  ");
    assert_eq!(stages.len(), 1);
    assert_eq!(stages[0].command, "echo");
    assert_eq!(stages[0].args, vec![String::from("hi")]);
}

#[test]
fn resolve_takes_the_first_directory_that_has_the_command() {
    let sh = Shell::new();
    let cmd = String::from("echo");
    let r = sh.resolve_command(&cmd, &vec![true, true]).unwrap();
    assert_eq!(r, "/bin/echo");
    let r2 = sh.resolve_command(&cmd, &vec![false, true]).unwrap();
    assert_eq!(r2, "/usr/bin/echo");
}

#[test]
fn resolve_uses_a_path_with_separator_verbatim() {
    let sh = Shell::new();
    let cmd = String::from("./tool");
    let r = sh.resolve_command(&cmd, &vec![false, false]).unwrap();
    assert_eq!(r, "./tool");
}

#[test]
fn resolve_fails_with_command_not_found() {
    let sh = Shell::new();
    let cmd = String::from("no_such_tool");
    let r = sh.resolve_command(&cmd, &vec![false, false]);
    assert_eq!(r, Err(ShellError::CommandNotFound(String::from("no_such_tool"))));
}

#[test]
fn three_resolvable_stages_give_three_wired_processes() {
    let sh = Shell::new();
    let stages = parse_pipeline("a | b | c");
    assert_eq!(stages.len(), 3);
    let found = vec![vec![true, false], vec![true, false], vec![true, false]];
    let resolved = sh.resolve_pipeline(&stages, &found).unwrap();
    assert_eq!(resolved.len(), 3);
    assert_eq!(resolved[0].path, "/bin/a");
    assert_eq!(resolved[1].path, "/bin/b");
    assert_eq!(resolved[2].path, "/bin/c");

    let plan = plan_io(3);
    assert_eq!(plan.len(), 3);
    assert_eq!(plan[0].stdin, StdinSpec::Inherit);
    assert_eq!(plan[0].stdout, StdoutSpec::Pipe(0));
    assert_eq!(plan[1].stdin, StdinSpec::Pipe(0));
    assert_eq!(plan[1].stdout, StdoutSpec::Pipe(1));
    assert_eq!(plan[2].stdin, StdinSpec::Pipe(1));
    assert_eq!(plan[2].stdout, StdoutSpec::Inherit);
}

#[test]
fn missing_first_command_fails_before_anything_is_handed_back() {
    let sh = Shell::new();
    let stages = parse_pipeline("missing_cmd | echo hi");
    assert_eq!(stages.len(), 2);
    let found = vec![vec![false, false], vec![true, true]];
    let r = sh.resolve_pipeline(&stages, &found);
    assert_eq!(r.unwrap_err(), ShellError::CommandNotFound(String::from("missing_cmd")));
}

#[test]
fn single_stage_pipeline_inherits_both_ends() {
    let plan = plan_io(1);
    assert_eq!(plan.len(), 1);
    assert_eq!(plan[0].stdin, StdinSpec::Inherit);
    assert_eq!(plan[0].stdout, StdoutSpec::Inherit);
}

#[test]
fn dispatch_intercepts_reserved_names() {
    assert_eq!(dispatch(&parse_pipeline("cd /tmp")), Dispatch::Cd);
    assert_eq!(dispatch(&parse_pipeline("exit")), Dispatch::Exit);
    assert_eq!(dispatch(&parse_pipeline("exit;")), Dispatch::Exit);
    assert_eq!(dispatch(&parse_pipeline("about")), Dispatch::About);
    assert_eq!(dispatch(&parse_pipeline("ls -l")), Dispatch::External);
    assert_eq!(dispatch(&parse_pipeline("  ")), Dispatch::Empty);
}

#[test]
fn resolved_stages_keep_their_arguments() {
    let sh = Shell::new();
    let stages = parse_pipeline("grep -v foo | sort");
    let found = vec![vec![false, true], vec![false, true]];
    let resolved = sh.resolve_pipeline(&stages, &found).unwrap();
    assert_eq!(resolved[0].args, vec![String::from("-v"), String::from("foo")]);
    assert_eq!(resolved[1].args, Vec::<String>::new());
}
