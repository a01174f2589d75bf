use minishell::autocomplete::{AutoComplete, Completion, Suggestion};

fn entry(name: &str, is_dir: bool) -> Suggestion {
    Suggestion { file_name: String::from(name), is_dir }
}

#[test]
fn single_match_rewrites_trailing_token() {
    let ac = AutoComplete::new();
    let line = String::from("cat ma");
    let entries = vec![entry("main.rs", false), entry("src", true), entry("target", true)];
    match ac.autocomplete(&line, &entries, 80) {
        Completion::Single(nl) => assert_eq!(nl, "cat main.rs"),
        _ => panic!("expected a single-match rewrite"),
    }
}

#[test]
fn single_directory_match_appends_separator() {
    let ac = AutoComplete::new();
    let line = String::from("cat sr");
    let entries = vec![entry("main.rs", false), entry("src", true)];
    match ac.autocomplete(&line, &entries, 80) {
        Completion::Single(nl) => assert_eq!(nl, "cat src/"),
        _ => panic!("expected a single-match rewrite"),
    }
}

#[test]
fn single_match_keeps_directory_portion_of_fragment() {
    let ac = AutoComplete::new();
    let line = String::from("cat src/ma");
    let entries = vec![entry("main.rs", false)];
    match ac.autocomplete(&line, &entries, 80) {
        Completion::Single(nl) => assert_eq!(nl, "cat src/main.rs"),
        _ => panic!("expected a single-match rewrite"),
    }
}

#[test]
fn cd_context_offers_directories_only() {
    let ac = AutoComplete::new();
    let line = String::from("cd s");
    let entries = vec![entry("setup.py", false), entry("src", true)];
    match ac.autocomplete(&line, &entries, 80) {
        Completion::Single(nl) => assert_eq!(nl, "cd src/"),
        _ => panic!("expected a single-match rewrite"),
    }
}

#[test]
fn two_matches_render_a_grid_and_leave_the_line_alone() {
    let ac = AutoComplete::new();
    let line = String::from("al");
    let entries = vec![entry("alpha", false), entry("alphabet", false)];
    match ac.autocomplete(&line, &entries, 80) {
        Completion::Grid(lines) => {
            assert_eq!(lines, vec![String::from("alpha       alphabet    ")]);
        },
        _ => panic!("expected a grid"),
    }
    assert_eq!(line, "al");
}

#[test]
fn grid_is_sorted_and_wraps_at_terminal_width() {
    let ac = AutoComplete::new();
    let line = String::from("");
    let entries = vec![entry("bb", false), entry("aa", false), entry("cc", false)];
    // cell width 2 + 4 = 6; a 13-column terminal fits two columns
    match ac.autocomplete(&line, &entries, 13) {
        Completion::Grid(lines) => {
            assert_eq!(
                lines,
                vec![String::from("aa    bb    "), String::from("cc    ")]
            );
        },
        _ => panic!("expected a grid"),
    }
}

#[test]
fn narrow_terminal_still_gets_one_column() {
    let ac = AutoComplete::new();
    let line = String::from("");
    let entries = vec![entry("aa", false), entry("b", false)];
    match ac.autocomplete(&line, &entries, 3) {
        Completion::Grid(lines) => {
            assert_eq!(lines, vec![String::from("aa    "), String::from("b     ")]);
        },
        _ => panic!("expected a grid"),
    }
}

#[test]
fn zero_matches_change_nothing() {
    let ac = AutoComplete::new();
    let line = String::from("cat zz");
    let entries = vec![entry("main.rs", false), entry("src", true)];
    match ac.autocomplete(&line, &entries, 80) {
        Completion::NoMatch => {},
        _ => panic!("expected no match"),
    }
}

#[test]
fn empty_prefix_matches_every_entry() {
    let ac = AutoComplete::new();
    let line = String::from("ls ");
    let entries = vec![entry("b", false), entry("a", false)];
    match ac.autocomplete(&line, &entries, 80) {
        Completion::Grid(lines) => {
            assert_eq!(lines, vec![String::from("a    b    ")]);
        },
        _ => panic!("expected a grid"),
    }
}

#[test]
fn empty_directory_gives_no_match() {
    let ac = AutoComplete::new();
    let line = String::from("cat x");
    let entries: Vec<Suggestion> = vec![];
    match ac.autocomplete(&line, &entries, 80) {
        Completion::NoMatch => {},
        _ => panic!("expected no match"),
    }
}
