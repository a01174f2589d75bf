use vstd::prelude::*;

use crate::errors::ShellError;
use crate::history::History;
use crate::strutil::{all_space, is_blank, last_index_of, find_last, str_eq, push_char};

verus! {

/// One key event of the line editor, as the terminal reports it.
#[derive(Debug, Clone, Copy, PartialEq, Eq, Structural)]
pub enum InputEvent {
    CharInput(char),
    Backspace,
    Enter,
    ArrowUp,
    ArrowDown,
    Tab,
    Interrupt,
}

/// What the caller of `handle_key` is to do next.
#[derive(Debug, Clone, Copy, PartialEq, Eq, Structural)]
pub enum EditorAction {
    /// Keep polling for key events.
    Continue,
    /// The line is finalized; stop the input cycle and run it.
    Finalize,
    /// List the target directory and invoke the completion engine.
    RunCompletion,
}

/// What the caller's probe of a directory path reported.
#[derive(Debug, Clone, Copy, PartialEq, Eq, Structural)]
pub enum DirStatus {
    Exists,
    Missing,
    Denied,
}

/// One edit step of the buffer: a character is pushed at the end, a
/// backspace removes the last character of a non-empty buffer; any other
/// event leaves the buffer as it is.
pub open spec fn edit_step(buf: Seq<char>, ev: InputEvent) -> Seq<char> {
    match ev {
        InputEvent::CharInput(c) => buf.push(c),
        InputEvent::Backspace => if buf.len() > 0 {
            buf.drop_last()
        } else {
            buf
        },
        _ => buf,
    }
}

/// The buffer after applying each event of `evs` in order.
pub open spec fn edit_fold(buf: Seq<char>, evs: Seq<InputEvent>) -> Seq<char>
    decreases evs.len(),
{
    if evs.len() == 0 {
        buf
    } else {
        edit_fold(edit_step(buf, evs[0]), evs.skip(1))
    }
}

/// The history, buffer and cursor after an up-arrow. A cursor at the end of
/// the store first stages the live buffer (when it differs from the last
/// entry), so in-progress edits are not lost while browsing; then the cursor
/// moves up and the buffer takes the entry there. At the top, nothing moves.
pub open spec fn up_spec(hist: Seq<Seq<char>>, input: Seq<char>, index: int) -> (
    Seq<Seq<char>>,
    Seq<char>,
    int,
) {
    if index <= 0 {
        (hist, input, index)
    } else {
        let h1 = if index == hist.len() && hist.last() != input {
            hist.push(input)
        } else {
            hist
        };
        (h1, h1[index - 1], index - 1)
    }
}

/// The buffer and cursor after a down-arrow. Moving past the most recent
/// entry leaves the buffer as it is, which restores the staged in-progress
/// text after an up-arrow excursion; at the end of the store, nothing moves.
pub open spec fn down_spec(hist: Seq<Seq<char>>, input: Seq<char>, index: int) -> (
    Seq<char>,
    int,
) {
    if index < hist.len() {
        if index + 1 < hist.len() {
            (hist[index + 1], index + 1)
        } else {
            (input, index + 1)
        }
    } else {
        (input, index)
    }
}

/// The history after a finalized line: appended when it is not blank and
/// differs from the last entry.
pub open spec fn enter_spec(hist: Seq<Seq<char>>, input: Seq<char>) -> Seq<Seq<char>> {
    if !all_space(input) && !(hist.len() > 0 && hist.last() == input) {
        hist.push(input)
    } else {
        hist
    }
}

/// The directory portion of a completion fragment: everything before the
/// last path separator, or empty when there is none.
pub open spec fn dir_portion(frag: Seq<char>) -> Seq<char> {
    match last_index_of(frag, '/') {
        Some(i) => frag.take(i),
        None => Seq::empty(),
    }
}

/// A relative path under a base directory: one separator between the two,
/// none added when the base already ends with one.
pub open spec fn join_path(base: Seq<char>, rel: Seq<char>) -> Seq<char> {
    if base.len() > 0 && base.last() == '/' {
        base + rel
    } else {
        base + "/"@ + rel
    }
}

/// The directory a completion fragment is listed against: its directory
/// portion when absolute, the working directory itself when the portion is
/// empty, and the portion joined to the working directory otherwise.
pub open spec fn completion_dir_spec(cwd: Seq<char>, frag: Seq<char>) -> Seq<char> {
    let dir = dir_portion(frag);
    if dir.len() > 0 && dir[0] == '/' {
        dir
    } else if dir.len() == 0 {
        cwd
    } else {
        join_path(cwd, dir)
    }
}

/// The directory a `cd` moves to: the first argument, or the root when
/// there is none; a relative argument is joined to the working directory.
pub open spec fn cd_target(cwd: Seq<char>, args: Seq<Seq<char>>) -> Seq<char> {
    let a = if args.len() == 0 {
        "/"@
    } else {
        args[0]
    };
    if a.len() > 0 && a[0] == '/' {
        a
    } else {
        join_path(cwd, a)
    }
}

/// Joins a relative path to a base directory. See `join_path`.
pub fn join(base: &String, rel: &str) -> (r: String)
    ensures
        r@ == join_path(base@, rel@),
{
    let n = base.as_str().unicode_len();
    if n > 0 && base.as_str().get_char(n - 1) == '/' {
        base.clone().concat(rel)
    } else {
        base.clone().concat("/").concat(rel)
    }
}

/// The interactive shell: the history store, the edit buffer of the current
/// input cycle, the working directory it tracks for its caller, and the
/// fixed list of directories searched for executables.
pub struct Shell {
    pub history: History,
    pub input: String,
    pub cwd: String,
    pub search_dirs: Vec<String>,
}

impl Shell {
    /// The shell's invariant: the history store holds no two adjacent equal
    /// entries.
    pub open spec fn wf(self) -> bool {
        self.history.wf()
    }

    /// A fresh shell: empty history, empty buffer, the root as working
    /// directory, and `/bin` then `/usr/bin` as the executable search path.
    pub fn new() -> (s: Shell)
        ensures
            s.wf(),
            s.history@ =~= Seq::<Seq<char>>::empty(),
            s.input@ =~= Seq::<char>::empty(),
            s.cwd@ == "/"@,
            s.search_dirs.deep_view() =~= seq!["/bin"@, "/usr/bin"@],
    {
        let mut dirs: Vec<String> = Vec::new();
        dirs.push(String::from_str("/bin"));
        dirs.push(String::from_str("/usr/bin"));
        proof {
            assert(dirs.deep_view() =~= seq!["/bin"@, "/usr/bin"@]);
        }
        Shell {
            history: History::new(),
            input: String::new(),
            cwd: String::from_str("/"),
            search_dirs: dirs,
        }
    }

    /// Tells the shell what the process's working directory is, so that a
    /// caller that changed it elsewhere can keep the two in step.
    pub fn sync_cwd(&mut self, cwd: String)
        ensures
            final(self).cwd == cwd,
            final(self).history == old(self).history,
            final(self).input == old(self).input,
            final(self).search_dirs == old(self).search_dirs,
    {
        self.cwd = cwd;
    }

    /// Starts an input cycle: clears the buffer and places the history
    /// cursor at the end of the store.
    pub fn begin_input_cycle(&mut self) -> (index: usize)
        ensures
            final(self).input@ =~= Seq::<char>::empty(),
            final(self).history == old(self).history,
            final(self).cwd == old(self).cwd,
            final(self).search_dirs == old(self).search_dirs,
            index == final(self).history@.len(),
    {
        self.input = String::new();
        self.history.len()
    }

    /// Appends one typed character to the edit buffer.
    pub fn handle_char_input(&mut self, c: char)
        ensures
            final(self).input@ == old(self).input@.push(c),
            final(self).history == old(self).history,
            final(self).cwd == old(self).cwd,
            final(self).search_dirs == old(self).search_dirs,
    {
        push_char(&mut self.input, c);
    }

    /// Removes the last character of the edit buffer, if there is one.
    pub fn handle_backspace(&mut self)
        ensures
            final(self).input@ == if old(self).input@.len() > 0 {
                old(self).input@.drop_last()
            } else {
                old(self).input@
            },
            final(self).history == old(self).history,
            final(self).cwd == old(self).cwd,
            final(self).search_dirs == old(self).search_dirs,
    {
        let n = self.input.as_str().unicode_len();
        if n > 0 {
            let t = self.input.as_str().substring_char(0, n - 1).to_owned();
            proof {
                assert(self.input@.subrange(0, self.input@.len() - 1) =~= self.input@.drop_last());
            }
            self.input = t;
        }
    }

    /// Clears the edit buffer on an interrupt; the input cycle goes on.
    pub fn handle_interrupt(&mut self)
        ensures
            final(self).input@ =~= Seq::<char>::empty(),
            final(self).history == old(self).history,
            final(self).cwd == old(self).cwd,
            final(self).search_dirs == old(self).search_dirs,
    {
        self.input = String::new();
    }

    /// Replaces the edit buffer with the history entry at `index`, when
    /// there is one.
    pub fn handle_arrow(&mut self, index: usize)
        ensures
            final(self).input@ == if index < old(self).history@.len() {
                old(self).history@[index as int]
            } else {
                old(self).input@
            },
            final(self).history == old(self).history,
            final(self).cwd == old(self).cwd,
            final(self).search_dirs == old(self).search_dirs,
    {
        if index < self.history.len() {
            let entry = self.history.entry(index).clone();
            self.input = entry;
        }
    }

    /// An up-arrow: stages the live buffer when recall begins, then recalls
    /// the previous entry. See `up_spec`.
    pub fn handle_up(&mut self, index: usize) -> (r: usize)
        requires
            old(self).wf(),
            index <= old(self).history@.len(),
        ensures
            final(self).wf(),
            r <= final(self).history@.len(),
            (final(self).history@, final(self).input@, r as int) == up_spec(
                old(self).history@,
                old(self).input@,
                index as int,
            ),
            final(self).cwd == old(self).cwd,
            final(self).search_dirs == old(self).search_dirs,
    {
        if index == 0 {
            return index;
        }
        if index == self.history.len() {
            let differs = !str_eq(self.history.entry(index - 1).as_str(), self.input.as_str());
            if differs {
                let staged = self.input.clone();
                self.history.append(staged);
            }
        }
        let ni = index - 1;
        let entry = self.history.entry(ni).clone();
        self.input = entry;
        ni
    }

    /// A down-arrow: moves the cursor towards the live end of the store.
    /// See `down_spec`.
    pub fn handle_down(&mut self, index: usize) -> (r: usize)
        requires
            index <= old(self).history@.len(),
        ensures
            r <= old(self).history@.len(),
            (final(self).input@, r as int) == down_spec(
                old(self).history@,
                old(self).input@,
                index as int,
            ),
            final(self).history == old(self).history,
            final(self).cwd == old(self).cwd,
            final(self).search_dirs == old(self).search_dirs,
    {
        if index < self.history.len() {
            let ni = index + 1;
            if ni < self.history.len() {
                let entry = self.history.entry(ni).clone();
                self.input = entry;
            }
            ni
        } else {
            index
        }
    }

    /// A finalized line: appends the buffer to the history unless it is
    /// blank or repeats the last entry. The buffer stays, for the caller to
    /// run.
    pub fn handle_enter(&mut self)
        requires
            old(self).wf(),
        ensures
            final(self).wf(),
            final(self).history@ == enter_spec(old(self).history@, old(self).input@),
            final(self).input == old(self).input,
            final(self).cwd == old(self).cwd,
            final(self).search_dirs == old(self).search_dirs,
    {
        if !is_blank(self.input.as_str()) {
            let line = self.input.clone();
            self.history.append(line);
        }
    }

    /// Processes one key event to completion: the line editor's state
    /// machine. Returns the new history cursor and what to do next.
    pub fn handle_key(&mut self, index: usize, ev: InputEvent) -> (r: (usize, EditorAction))
        requires
            old(self).wf(),
            index <= old(self).history@.len(),
        ensures
            final(self).wf(),
            r.0 <= final(self).history@.len(),
            final(self).cwd == old(self).cwd,
            final(self).search_dirs == old(self).search_dirs,
            (ev matches InputEvent::CharInput(_)) ==> {
                &&& final(self).history == old(self).history
                &&& final(self).input@ == edit_step(old(self).input@, ev)
                &&& r == (index, EditorAction::Continue)
            },
            ev == InputEvent::Backspace ==> {
                &&& final(self).history == old(self).history
                &&& final(self).input@ == edit_step(old(self).input@, ev)
                &&& r == (index, EditorAction::Continue)
            },
            ev == InputEvent::Interrupt ==> {
                &&& final(self).history == old(self).history
                &&& final(self).input@ =~= Seq::<char>::empty()
                &&& r == (index, EditorAction::Continue)
            },
            ev == InputEvent::ArrowUp ==> {
                &&& (final(self).history@, final(self).input@, r.0 as int) == up_spec(
                    old(self).history@,
                    old(self).input@,
                    index as int,
                )
                &&& r.1 == EditorAction::Continue
            },
            ev == InputEvent::ArrowDown ==> {
                &&& final(self).history == old(self).history
                &&& (final(self).input@, r.0 as int) == down_spec(
                    old(self).history@,
                    old(self).input@,
                    index as int,
                )
                &&& r.1 == EditorAction::Continue
            },
            ev == InputEvent::Enter ==> {
                &&& final(self).history@ == enter_spec(old(self).history@, old(self).input@)
                &&& final(self).input == old(self).input
                &&& r == (index, EditorAction::Finalize)
            },
            ev == InputEvent::Tab ==> {
                &&& final(self).history == old(self).history
                &&& final(self).input == old(self).input
                &&& r == (index, EditorAction::RunCompletion)
            },
    {
        match ev {
            InputEvent::CharInput(c) => {
                self.handle_char_input(c);
                (index, EditorAction::Continue)
            },
            InputEvent::Backspace => {
                self.handle_backspace();
                (index, EditorAction::Continue)
            },
            InputEvent::Interrupt => {
                self.handle_interrupt();
                (index, EditorAction::Continue)
            },
            InputEvent::ArrowUp => {
                let ni = self.handle_up(index);
                (ni, EditorAction::Continue)
            },
            InputEvent::ArrowDown => {
                let ni = self.handle_down(index);
                (ni, EditorAction::Continue)
            },
            InputEvent::Enter => {
                self.handle_enter();
                (index, EditorAction::Finalize)
            },
            InputEvent::Tab => (index, EditorAction::RunCompletion),
        }
    }

    /// Applies a sequence of character and backspace events in order. The
    /// buffer ends as the stack-edit of the events: each character pushed at
    /// the end, each backspace popping the last character off.
    pub fn replay_edits(&mut self, events: &Vec<InputEvent>)
        requires
            forall|i: int|
                0 <= i < events@.len() ==> ((#[trigger] events@[i]) matches InputEvent::CharInput(
                    _,
                ) || events@[i] == InputEvent::Backspace),
        ensures
            final(self).input@ == edit_fold(old(self).input@, events@),
            final(self).history == old(self).history,
            final(self).cwd == old(self).cwd,
            final(self).search_dirs == old(self).search_dirs,
    {
        let n = events.len();
        let mut i: usize = 0;
        proof {
            assert(events@.skip(0) =~= events@);
        }
        while i < n
            invariant
                n == events@.len(),
                i <= n,
                forall|j: int|
                    0 <= j < events@.len() ==> ((#[trigger] events@[j])
                        matches InputEvent::CharInput(_) || events@[j] == InputEvent::Backspace),
                edit_fold(old(self).input@, events@) == edit_fold(
                    self.input@,
                    events@.skip(i as int),
                ),
                self.history == old(self).history,
                self.cwd == old(self).cwd,
                self.search_dirs == old(self).search_dirs,
            decreases n - i,
        {
            proof {
                assert(events@.skip(i as int).skip(1) =~= events@.skip(i as int + 1));
            }
            match events[i] {
                InputEvent::CharInput(c) => self.handle_char_input(c),
                InputEvent::Backspace => self.handle_backspace(),
                _ => (),
            }
            i += 1;
        }
    }

    /// Moves the tracked working directory per a `cd`, given what the
    /// caller's probe of the target reported. On `Missing` or `Denied` the
    /// working directory stays and the failure is reported, never swallowed.
    pub fn change_directory(&mut self, args: &Vec<String>, status: DirStatus) -> (r: Result<
        (),
        ShellError,
    >)
        ensures
            final(self).history == old(self).history,
            final(self).input == old(self).input,
            final(self).search_dirs == old(self).search_dirs,
            status == DirStatus::Exists ==> r is Ok && final(self).cwd@ == cd_target(
                old(self).cwd@,
                args.deep_view(),
            ),
            status == DirStatus::Missing ==> r == Err::<(), ShellError>(ShellError::NotFound)
                && final(self).cwd == old(self).cwd,
            status == DirStatus::Denied ==> r == Err::<(), ShellError>(
                ShellError::PermissionDenied,
            ) && final(self).cwd == old(self).cwd,
    {
        match status {
            DirStatus::Missing => Err(ShellError::NotFound),
            DirStatus::Denied => Err(ShellError::PermissionDenied),
            DirStatus::Exists => {
                let target = self.cd_dest(args);
                self.cwd = target;
                Ok(())
            },
        }
    }

    /// The directory a `cd` with these arguments moves to. See `cd_target`.
    pub fn cd_dest(&self, args: &Vec<String>) -> (d: String)
        ensures
            d@ == cd_target(self.cwd@, args.deep_view()),
    {
        if args.len() == 0 {
            let d = String::from_str("/");
            proof {
                reveal_strlit("/");
            }
            d
        } else {
            let a = &args[0];
            proof {
                assert(args.deep_view()[0] == args@[0]@);
            }
            let al = a.as_str().unicode_len();
            if al > 0 && a.as_str().get_char(0) == '/' {
                a.clone()
            } else {
                join(&self.cwd, a.as_str())
            }
        }
    }

    /// The directory the completion engine is to list for this fragment.
    /// See `completion_dir_spec`.
    pub fn completion_dir(&self, fragment: &String) -> (d: String)
        ensures
            d@ == completion_dir_spec(self.cwd@, fragment@),
    {
        let frag = fragment.as_str();
        match find_last(frag, '/') {
            Some(i) => {
                proof {
                    crate::strutil::lemma_last_index_some(fragment@, '/', i as int);
                }
                let dir = frag.substring_char(0, i).to_owned();
                let dl = dir.as_str().unicode_len();
                if dl > 0 && dir.as_str().get_char(0) == '/' {
                    dir
                } else if dl == 0 {
                    self.cwd.clone()
                } else {
                    join(&self.cwd, dir.as_str())
                }
            },
            None => {
                proof {
                    crate::strutil::lemma_last_index_none(fragment@, '/');
                }
                self.cwd.clone()
            },
        }
    }

    /// The one-line prompt the caller draws: the working directory, a
    /// marker, and the live edit buffer.
    pub fn prompt_line(&self) -> (p: String)
        ensures
            p@ == self.cwd@ + "> "@ + self.input@,
    {
        self.cwd.clone().concat("> ").concat(self.input.as_str())
    }
}

/// Up-arrow then down-arrow at the start of an input cycle with an empty
/// history store is a no-op: the store stays empty and the edit buffer and
/// cursor are unchanged.
pub proof fn lemma_up_down_noop_on_empty_history(input: Seq<char>)
    ensures
        ({
            let (h1, b1, i1) = up_spec(Seq::<Seq<char>>::empty(), input, 0);
            let (b2, i2) = down_spec(h1, b1, i1);
            h1 =~= Seq::<Seq<char>>::empty() && b1 == input && i1 == 0 && b2 == input && i2 == 0
        }),
{
}

/// After a successful `cd`, a completion fragment without an absolute
/// directory portion is listed against the new working directory.
pub proof fn lemma_cd_redirects_completion(cwd: Seq<char>, args: Seq<Seq<char>>, frag: Seq<char>)
    ensures
        dir_portion(frag).len() == 0 ==> completion_dir_spec(cd_target(cwd, args), frag)
            == cd_target(cwd, args),
        (dir_portion(frag).len() > 0 && dir_portion(frag)[0] != '/') ==> completion_dir_spec(
            cd_target(cwd, args),
            frag,
        ) == join_path(cd_target(cwd, args), dir_portion(frag)),
{
}

} // verus!
