use vstd::prelude::*;

use crate::errors::ShellError;
use crate::strutil::{tokens_of, tokenize, contains_char, push_char, str_eq};

verus! {

/// The pipeline segments of `s` from position `i` on, split at every
/// ` | ` (a pipe surrounded by single spaces), with `cur` the partial
/// segment read so far.
pub open spec fn segs_acc(s: Seq<char>, i: int, cur: Seq<char>) -> Seq<Seq<char>>
    decreases s.len() - i,
{
    if i >= s.len() {
        seq![cur]
    } else if i + 3 <= s.len() && s[i] == ' ' && s[i + 1] == '|' && s[i + 2] == ' ' {
        seq![cur] + segs_acc(s, i + 3, seq![])
    } else {
        segs_acc(s, i + 1, cur.push(s[i]))
    }
}

/// The pipeline segments of `s`: the texts between the stage delimiters.
pub open spec fn segs_of(s: Seq<char>) -> Seq<Seq<char>> {
    segs_acc(s, 0, seq![])
}

/// The token lists of the stages of a pipeline: each segment's
/// whitespace-delimited tokens, segments without any token skipped.
pub open spec fn pipeline_of(segs: Seq<Seq<char>>) -> Seq<Seq<Seq<char>>>
    decreases segs.len(),
{
    if segs.len() == 0 {
        seq![]
    } else {
        let t = tokens_of(segs[0]);
        let rest = pipeline_of(segs.skip(1));
        if t.len() > 0 {
            seq![t] + rest
        } else {
            rest
        }
    }
}

/// One stage of a pipeline: a command name and its arguments.
pub struct Stage {
    pub command: String,
    pub args: Vec<String>,
}

impl View for Stage {
    type V = Seq<Seq<char>>;

    /// A stage is viewed as its token list: the command then the arguments.
    open spec fn view(&self) -> Seq<Seq<char>> {
        seq![self.command@] + self.args.deep_view()
    }
}

/// The views of a sequence of stages.
pub open spec fn stage_views(v: Seq<Stage>) -> Seq<Seq<Seq<char>>> {
    v.map_values(|st: Stage| st@)
}

/// Splits `line` at every ` | ` into its stage segments.
pub fn split_stages(line: &str) -> (r: Vec<String>)
    ensures
        r.deep_view() == segs_of(line@),
{
    let n = line.unicode_len();
    let mut out: Vec<String> = Vec::new();
    let mut cur = String::new();
    let mut i: usize = 0;
    while i < n
        invariant
            n == line@.len(),
            i <= n,
            segs_of(line@) =~= out.deep_view() + segs_acc(line@, i as int, cur@),
        decreases n - i,
    {
        let ghost pre = out.deep_view();
        let ghost curv = cur@;
        if n - i >= 3 && line.get_char(i) == ' ' && line.get_char(i + 1) == '|' && line.get_char(
            i + 2,
        ) == ' ' {
            out.push(cur);
            cur = String::new();
            proof {
                assert(out.deep_view() =~= pre.push(curv));
                assert(cur@ =~= Seq::<char>::empty());
                assert(segs_acc(line@, i as int, curv) == seq![curv] + segs_acc(
                    line@,
                    i as int + 3,
                    seq![],
                ));
                assert(segs_acc(line@, i as int + 3, cur@) == segs_acc(
                    line@,
                    i as int + 3,
                    seq![],
                ));
                assert(out.deep_view() + segs_acc(line@, i as int + 3, cur@) =~= pre + (
                seq![curv] + segs_acc(line@, i as int + 3, seq![])));
            }
            i += 3;
        } else {
            push_char(&mut cur, line.get_char(i));
            proof {
                assert(cur@ == curv.push(line@[i as int]));
                assert(segs_acc(line@, i as int, curv) == segs_acc(line@, i as int + 1, cur@));
            }
            i += 1;
        }
    }
    let ghost pre = out.deep_view();
    let ghost curv = cur@;
    out.push(cur);
    proof {
        assert(out.deep_view() =~= pre.push(curv));
        assert(out.deep_view() =~= segs_of(line@));
    }
    out
}

/// Parses a finalized command line into its pipeline stages: the line is
/// split at every ` | `, each segment is split on whitespace into a command
/// name and arguments, and segments without any token are skipped.
pub fn parse_pipeline(line: &str) -> (r: Vec<Stage>)
    ensures
        stage_views(r@) == pipeline_of(segs_of(line@)),
{
    let segs = split_stages(line);
    let n = segs.len();
    let mut out: Vec<Stage> = Vec::new();
    let mut i: usize = 0;
    proof {
        assert(segs.deep_view().skip(0) =~= segs.deep_view());
        assert(stage_views(out@) + pipeline_of(segs.deep_view()) =~= pipeline_of(segs.deep_view()));
    }
    while i < n
        invariant
            n == segs@.len(),
            i <= n,
            segs.deep_view().len() == n,
            pipeline_of(segs_of(line@)) =~= stage_views(out@) + pipeline_of(
                segs.deep_view().skip(i as int),
            ),
        decreases n - i,
    {
        let ghost segsv = segs.deep_view();
        proof {
            assert(segsv.skip(i as int)[0] == segsv[i as int]);
            assert(segsv[i as int] == segs@[i as int]@);
            assert(segsv.skip(i as int).skip(1) =~= segsv.skip(i as int + 1));
        }
        let toks = tokenize(segs[i].as_str());
        if toks.len() > 0 {
            let ghost pre = stage_views(out@);
            let mut args: Vec<String> = Vec::new();
            let command = toks[0].clone();
            let mut j: usize = 1;
            while j < toks.len()
                invariant
                    1 <= j <= toks@.len(),
                    args.deep_view() =~= toks.deep_view().subrange(1, j as int),
                decreases toks@.len() - j,
            {
                let ghost argsv = args.deep_view();
                args.push(toks[j].clone());
                proof {
                    assert(args.deep_view() =~= argsv.push(toks@[j as int]@));
                    assert(args.deep_view() =~= toks.deep_view().subrange(1, j as int + 1));
                }
                j += 1;
            }
            let st = Stage { command, args };
            proof {
                assert(st@ =~= tokens_of(segsv[i as int])) by {
                    assert(toks.deep_view().subrange(1, toks.deep_view().len() as int)
                        =~= toks.deep_view().skip(1));
                    assert(st@ =~= seq![toks.deep_view()[0]] + toks.deep_view().skip(1));
                    assert(seq![toks.deep_view()[0]] + toks.deep_view().skip(1) =~= toks.deep_view());
                }
            }
            out.push(st);
            proof {
                assert(stage_views(out@) =~= pre.push(tokens_of(segsv[i as int])));
                assert(stage_views(out@) + pipeline_of(segsv.skip(i as int + 1)) =~= pre + (
                seq![tokens_of(segsv[i as int])] + pipeline_of(segsv.skip(i as int + 1))));
            }
        }
        i += 1;
    }
    proof {
        assert(segs.deep_view().skip(n as int) =~= Seq::<Seq<char>>::empty());
        assert(stage_views(out@) =~= pipeline_of(segs_of(line@)));
    }
    out
}

/// `s` holds a path separator.
pub open spec fn has_slash(s: Seq<char>) -> bool {
    crate::strutil::has_char(s, '/')
}

/// The path the first search directory whose probe succeeded gives to the
/// command, walking the directories in order; `None` when every probe
/// failed.
pub open spec fn search_spec(dirs: Seq<Seq<char>>, found: Seq<bool>, cmd: Seq<char>) -> Option<
    Seq<char>,
>
    decreases dirs.len(),
{
    if dirs.len() == 0 {
        None
    } else if found[0] {
        Some(dirs[0] + "/"@ + cmd)
    } else {
        search_spec(dirs.skip(1), found.skip(1), cmd)
    }
}

/// Where a command resolves to: a name holding a path separator is used
/// verbatim; otherwise the first search directory found to hold it wins.
pub open spec fn resolved_path(dirs: Seq<Seq<char>>, found: Seq<bool>, cmd: Seq<char>) -> Option<
    Seq<char>,
> {
    if has_slash(cmd) {
        Some(cmd)
    } else {
        search_spec(dirs, found, cmd)
    }
}

/// One resolved stage: the executable's path and the arguments to pass.
#[derive(Debug)]
pub struct ResolvedStage {
    pub path: String,
    pub args: Vec<String>,
}

impl crate::shell::Shell {
    /// Resolves a command name to an executable path. `found[i]` is what the
    /// caller's probe of the name under `self.search_dirs[i]` reported.
    /// Fails with `CommandNotFound`, carrying the name, when no probe
    /// succeeded.
    pub fn resolve_command(&self, command: &String, found: &Vec<bool>) -> (r: Result<
        String,
        ShellError,
    >)
        requires
            found@.len() == self.search_dirs@.len(),
        ensures
            match resolved_path(self.search_dirs.deep_view(), found@, command@) {
                Some(p) => r matches Ok(q) && q@ == p,
                None => r matches Err(e) && (e matches ShellError::CommandNotFound(c) && c@
                    == command@),
            },
    {
        if contains_char(command.as_str(), '/') {
            return Ok(command.clone());
        }
        let n = self.search_dirs.len();
        let ghost dirsv = self.search_dirs.deep_view();
        let mut i: usize = 0;
        proof {
            assert(dirsv.skip(0) =~= dirsv);
            assert(found@.skip(0) =~= found@);
        }
        while i < n
            invariant
                !has_slash(command@),
                n == self.search_dirs@.len(),
                found@.len() == n,
                dirsv == self.search_dirs.deep_view(),
                dirsv.len() == n,
                i <= n,
                search_spec(dirsv, found@, command@) == search_spec(
                    dirsv.skip(i as int),
                    found@.skip(i as int),
                    command@,
                ),
            decreases n - i,
        {
            proof {
                assert(dirsv.skip(i as int)[0] == dirsv[i as int]);
                assert(found@.skip(i as int)[0] == found@[i as int]);
                assert(dirsv.skip(i as int).skip(1) =~= dirsv.skip(i as int + 1));
                assert(found@.skip(i as int).skip(1) =~= found@.skip(i as int + 1));
            }
            if found[i] {
                let p = self.search_dirs[i].clone().concat("/").concat(command.as_str());
                proof {
                    assert(dirsv[i as int] == self.search_dirs@[i as int]@);
                    assert(search_spec(dirsv.skip(i as int), found@.skip(i as int), command@)
                        == Some(dirsv[i as int] + "/"@ + command@));
                    assert(p@ == dirsv[i as int] + "/"@ + command@);
                }
                return Ok(p);
            }
            i += 1;
        }
        proof {
            assert(dirsv.skip(n as int).len() == 0);
        }
        Err(ShellError::CommandNotFound(command.clone()))
    }

    /// Resolves every stage of a pipeline before any is run. When some
    /// stage's command cannot be resolved, the whole pipeline fails with
    /// `CommandNotFound` for the first such command and no stage is handed
    /// back to run.
    pub fn resolve_pipeline(&self, stages: &Vec<Stage>, found: &Vec<Vec<bool>>) -> (r: Result<
        Vec<ResolvedStage>,
        ShellError,
    >)
        requires
            found@.len() == stages@.len(),
            forall|i: int|
                0 <= i < found@.len() ==> (#[trigger] found@[i])@.len() == self.search_dirs@.len(),
        ensures
            (forall|i: int|
                0 <= i < stages@.len() ==> (#[trigger] resolved_path(
                    self.search_dirs.deep_view(),
                    found@[i]@,
                    stages@[i].command@,
                )) is Some) ==> (r matches Ok(v) && {
                &&& v@.len() == stages@.len()
                &&& forall|i: int|
                    0 <= i < stages@.len() ==> (#[trigger] v@[i].path@) == resolved_path(
                        self.search_dirs.deep_view(),
                        found@[i]@,
                        stages@[i].command@,
                    ).unwrap()
                &&& forall|i: int|
                    0 <= i < stages@.len() ==> (#[trigger] v@[i].args).deep_view()
                        == stages@[i].args.deep_view()
            }),
            (exists|i: int|
                0 <= i < stages@.len() && (#[trigger] resolved_path(
                    self.search_dirs.deep_view(),
                    found@[i]@,
                    stages@[i].command@,
                )) is None) ==> (r matches Err(e) && exists|k: int|
                {
                    &&& 0 <= k < stages@.len()
                    &&& resolved_path(
                        self.search_dirs.deep_view(),
                        found@[k]@,
                        stages@[k].command@,
                    ) is None
                    &&& forall|j: int|
                        0 <= j < k ==> (#[trigger] resolved_path(
                            self.search_dirs.deep_view(),
                            found@[j]@,
                            stages@[j].command@,
                        )) is Some
                    &&& (e matches ShellError::CommandNotFound(c) && c@ == stages@[k].command@)
                }),
    {
        let n = stages.len();
        let mut out: Vec<ResolvedStage> = Vec::new();
        let mut i: usize = 0;
        while i < n
            invariant
                n == stages@.len(),
                found@.len() == n,
                forall|k: int|
                    0 <= k < found@.len() ==> (#[trigger] found@[k])@.len()
                        == self.search_dirs@.len(),
                i <= n,
                out@.len() == i,
                forall|k: int|
                    0 <= k < i ==> (#[trigger] resolved_path(
                        self.search_dirs.deep_view(),
                        found@[k]@,
                        stages@[k].command@,
                    )) is Some,
                forall|k: int|
                    0 <= k < i ==> (#[trigger] out@[k].path@) == resolved_path(
                        self.search_dirs.deep_view(),
                        found@[k]@,
                        stages@[k].command@,
                    ).unwrap(),
                forall|k: int|
                    0 <= k < i ==> (#[trigger] out@[k].args).deep_view()
                        == stages@[k].args.deep_view(),
            decreases n - i,
        {
            match self.resolve_command(&stages[i].command, &found[i]) {
                Ok(path) => {
                    let args = clone_strings(&stages[i].args);
                    out.push(ResolvedStage { path, args });
                },
                Err(e) => {
                    return Err(e);
                },
            }
            i += 1;
        }
        Ok(out)
    }
}

/// Clones a list of strings, keeping its contents.
fn clone_strings(v: &Vec<String>) -> (r: Vec<String>)
    ensures
        r.deep_view() == v.deep_view(),
{
    let mut r: Vec<String> = Vec::new();
    let mut i: usize = 0;
    while i < v.len()
        invariant
            i <= v@.len(),
            r.deep_view() =~= v.deep_view().take(i as int),
        decreases v@.len() - i,
    {
        let ghost pre = r.deep_view();
        r.push(v[i].clone());
        proof {
            assert(r.deep_view() =~= pre.push(v@[i as int]@));
            assert(r.deep_view() =~= v.deep_view().take(i as int + 1));
        }
        i += 1;
    }
    proof {
        assert(r.deep_view() =~= v.deep_view());
    }
    r
}

/// A stage's input endpoint: the shell's own input, or the read end of the
/// numbered pipe.
#[derive(Debug, Clone, Copy, PartialEq, Eq, Structural)]
pub enum StdinSpec {
    Inherit,
    Pipe(usize),
}

/// A stage's output endpoint: the shell's own output, or the write end of
/// the numbered pipe.
#[derive(Debug, Clone, Copy, PartialEq, Eq, Structural)]
pub enum StdoutSpec {
    Inherit,
    Pipe(usize),
}

/// The planned input and output endpoints of one stage. Pipe `k` carries
/// stage `k`'s output into stage `k + 1`.
#[derive(Debug, Clone, Copy, PartialEq, Eq, Structural)]
pub struct StagePlan {
    pub stdin: StdinSpec,
    pub stdout: StdoutSpec,
}

/// The endpoints of stage `i` in a pipeline of `n` stages: the first stage
/// inherits the shell's input, the last inherits the shell's output, and
/// every other endpoint is a pipe shared with the neighbouring stage.
pub open spec fn plan_spec(i: int, n: int) -> StagePlan {
    StagePlan {
        stdin: if i == 0 {
            StdinSpec::Inherit
        } else {
            StdinSpec::Pipe((i - 1) as usize)
        },
        stdout: if i == n - 1 {
            StdoutSpec::Inherit
        } else {
            StdoutSpec::Pipe(i as usize)
        },
    }
}

/// Plans the wiring of an `n`-stage pipeline.
pub fn plan_io(n: usize) -> (p: Vec<StagePlan>)
    ensures
        p@.len() == n,
        forall|i: int| 0 <= i < n ==> #[trigger] p@[i] == plan_spec(i, n as int),
{
    let mut p: Vec<StagePlan> = Vec::new();
    let mut i: usize = 0;
    while i < n
        invariant
            i <= n,
            p@.len() == i,
            forall|k: int| 0 <= k < i ==> #[trigger] p@[k] == plan_spec(k, n as int),
        decreases n - i,
    {
        let stdin = if i == 0 {
            StdinSpec::Inherit
        } else {
            StdinSpec::Pipe(i - 1)
        };
        let stdout = if i == n - 1 {
            StdoutSpec::Inherit
        } else {
            StdoutSpec::Pipe(i)
        };
        p.push(StagePlan { stdin, stdout });
        i += 1;
    }
    p
}

/// In a planned pipeline, each stage's output pipe is exactly the next
/// stage's input pipe; the first stage reads the shell's input and the last
/// writes the shell's output.
pub proof fn lemma_pipeline_wiring(i: int, n: int)
    requires
        0 <= i < n - 1,
    ensures
        plan_spec(i, n).stdout == StdoutSpec::Pipe(i as usize),
        plan_spec(i + 1, n).stdin == StdinSpec::Pipe(i as usize),
        plan_spec(0, n).stdin == StdinSpec::Inherit,
        plan_spec(n - 1, n).stdout == StdoutSpec::Inherit,
{
}

/// What the built-in dispatcher decides for a parsed line.
#[derive(Debug, Clone, Copy, PartialEq, Eq, Structural)]
pub enum Dispatch {
    /// No stage at all: nothing to run.
    Empty,
    /// The reserved `cd` command.
    Cd,
    /// The reserved `exit` command.
    Exit,
    /// The reserved `about` command.
    About,
    /// An external pipeline to resolve and spawn.
    External,
}

/// Intercepts the reserved command names before any process is launched,
/// deciding by the first stage's command.
pub fn dispatch(stages: &Vec<Stage>) -> (d: Dispatch)
    ensures
        stages@.len() == 0 ==> d == Dispatch::Empty,
        stages@.len() > 0 ==> {
            let c = stages@[0].command@;
            &&& c == "cd"@ ==> d == Dispatch::Cd
            &&& (c == "exit"@ || c == "exit;"@) ==> d == Dispatch::Exit
            &&& c == "about"@ ==> d == Dispatch::About
            &&& (c != "cd"@ && c != "exit"@ && c != "exit;"@ && c != "about"@) ==> d
                == Dispatch::External
        },
{
    if stages.len() == 0 {
        return Dispatch::Empty;
    }
    proof {
        reveal_strlit("cd");
        reveal_strlit("exit");
        reveal_strlit("exit;");
        reveal_strlit("about");
        assert("cd"@.len() == 2);
        assert("exit"@.len() == 4);
        assert("exit;"@.len() == 5);
        assert("about"@.len() == 5);
        assert("exit;"@[0] == 'e' && "about"@[0] == 'a');
    }
    let c = stages[0].command.as_str();
    if str_eq(c, "cd") {
        Dispatch::Cd
    } else if str_eq(c, "exit") || str_eq(c, "exit;") {
        Dispatch::Exit
    } else if str_eq(c, "about") {
        Dispatch::About
    } else {
        Dispatch::External
    }
}

} // verus!
