//! A formatter ready to run: its compiled patterns, the process it asks for
//! on a set of files, and what the end of that process means.

use vstd::prelude::*;
use crate::config::{FormatterConfig, FormatterSpec};
use crate::glob::{GlobError, glob_set_globs};
use crate::ordered_map::OrderedMap;
use crate::util::{
    all_valid, any_matches, blames_first_invalid, compilable, glob_set_from_iter, globs_of,
};

verus! {

/// `std::io::Error`, why a process could not be started.
#[verifier::external_type_specification]
#[verifier::external_body]
pub struct ExIoError(std::io::Error);

/// The family of the host system, which decides the command interpreter.
#[derive(Clone, Copy, Debug, PartialEq, Eq, Structural)]
pub enum Platform {
    Posix,
    Windows,
}

impl Platform {
    /// The command interpreter of the platform.
    pub open spec fn shell_program(self) -> Seq<char> {
        match self {
            Platform::Posix => "sh"@,
            Platform::Windows => "cmd.exe"@,
        }
    }

    /// The flag that makes the interpreter run the string that follows it.
    pub open spec fn shell_flag(self) -> Seq<char> {
        match self {
            Platform::Posix => "-c"@,
            Platform::Windows => "/c"@,
        }
    }
}

/// A process to start: the executable, its arguments in order, the directory
/// to start it in, and the variables to set on top of the ambient
/// environment.
#[derive(Clone, Debug, PartialEq, Eq)]
pub struct Invocation {
    pub program: String,
    pub args: Vec<String>,
    pub working_dir: String,
    pub env: Vec<(String, String)>,
}

/// An invocation as plain text.
pub struct InvocationSpec {
    pub program: Seq<char>,
    pub args: Seq<Seq<char>>,
    pub working_dir: Seq<char>,
    pub env: Seq<(Seq<char>, Seq<char>)>,
}

impl View for Invocation {
    type V = InvocationSpec;

    open spec fn view(&self) -> InvocationSpec {
        InvocationSpec {
            program: self.program@,
            args: self.args.deep_view(),
            working_dir: self.working_dir@,
            env: Seq::new(self.env@.len(), |i: int| (self.env@[i].0@, self.env@[i].1@)),
        }
    }
}

impl DeepView for Invocation {
    type V = InvocationSpec;

    open spec fn deep_view(&self) -> InvocationSpec {
        self@
    }
}

/// Why a run of a formatter failed.
#[derive(Debug)]
pub enum Error {
    /// The process could not be started.
    ExecFailed(std::io::Error),
    /// The process ran and did not exit with status zero.
    ProgramFailed,
}

impl Error {
    /// What is said of a program that ran and failed.
    pub open spec fn program_failed_message() -> Seq<char> {
        "executed program did not exit successfully"@
    }

    /// The error in words. Where the process did not start these are the
    /// words of the cause itself, as the cause displays them.
    pub fn message(&self) -> (res: String)
        ensures
            self is ProgramFailed ==> res@ == Self::program_failed_message(),
            self matches Error::ExecFailed(cause)
                ==> vstd::string::to_string_from_display_ensures::<std::io::Error>(&cause, res),
    {
        match self {
            Error::ExecFailed(cause) => cause.to_string(),
            Error::ProgramFailed => "executed program did not exit successfully".to_owned(),
        }
    }
}

/// How a process ended, as the caller that ran it reports it: the exit code
/// where there is one, or the reason it never started.
pub type ExitReport = Result<Option<i32>, std::io::Error>;

/// A formatter as the library models it: its name, the globs its matcher
/// was compiled from, each by its text and its option on separators, and
/// how its program is invoked.
pub struct RunnerSpec {
    pub name: Seq<char>,
    pub globs: Seq<(Seq<char>, bool)>,
    pub program: Seq<char>,
    pub shell: bool,
    pub args: Seq<Seq<char>>,
    pub env: Seq<(Seq<char>, Seq<char>)>,
}

impl RunnerSpec {
    /// The runner that a named formatter configuration stands for.
    pub open spec fn of(name: Seq<char>, fmt: FormatterSpec) -> RunnerSpec {
        RunnerSpec {
            name,
            globs: globs_of(fmt.patterns),
            program: fmt.program,
            shell: fmt.shell,
            args: fmt.args,
            env: fmt.env,
        }
    }

    /// Whether one of the runner's globs matches the path, taken relative
    /// to the project root. A runner without patterns accepts nothing.
    pub open spec fn accepts(self, path: Seq<char>) -> bool {
        any_matches(self.globs, path)
    }

    /// The process that runs the formatter on `paths`.
    ///
    /// Without `shell`, the program is started directly with the preset
    /// arguments followed by the paths. With `shell`, the platform's command
    /// interpreter is started with its run-this-string flag and the program
    /// text, followed by the preset arguments and the paths.
    pub open spec fn invocation(
        self,
        platform: Platform,
        working_dir: Seq<char>,
        paths: Seq<Seq<char>>,
    ) -> InvocationSpec {
        InvocationSpec {
            program: if self.shell {
                platform.shell_program()
            } else {
                self.program
            },
            args: if self.shell {
                seq![platform.shell_flag(), self.program] + self.args + paths
            } else {
                self.args + paths
            },
            working_dir,
            env: self.env,
        }
    }
}

/// A runner that goes through the shell is run, on a POSIX host, as
/// `sh -c <program> <preset arguments> <paths>`: the program text is one
/// argument, and each preset argument and each path is an argument of its
/// own behind it, in order.
pub proof fn lemma_posix_shell_invocation(
    runner: RunnerSpec,
    working_dir: Seq<char>,
    paths: Seq<Seq<char>>,
)
    requires
        runner.shell,
    ensures
        runner.invocation(Platform::Posix, working_dir, paths).program == "sh"@,
        runner.invocation(Platform::Posix, working_dir, paths).args == seq!["-c"@, runner.program]
            + runner.args + paths,
        runner.invocation(Platform::Posix, working_dir, paths).args.len() == 2
            + runner.args.len() + paths.len(),
        runner.invocation(Platform::Posix, working_dir, paths).args[0] == "-c"@,
        runner.invocation(Platform::Posix, working_dir, paths).args[1] == runner.program,
        forall|i: int|
            0 <= i < paths.len() ==> runner.invocation(Platform::Posix, working_dir, paths).args[2
                + runner.args.len() + i] == #[trigger] paths[i],
        runner.invocation(Platform::Posix, working_dir, paths).working_dir == working_dir,
        runner.invocation(Platform::Posix, working_dir, paths).env == runner.env,
{
}

/// What an exit report means: success for exit code zero, `ProgramFailed`
/// for any other end of the process, `ExecFailed` with the cause where the
/// process did not start.
pub open spec fn result_of(report: ExitReport) -> Result<(), Error> {
    match report {
        Ok(code) => if code == Some(0i32) {
            Ok(())
        } else {
            Err(Error::ProgramFailed)
        },
        Err(cause) => Err(Error::ExecFailed(cause)),
    }
}

/// A formatter with its patterns compiled.
#[derive(Debug)]
pub struct Runner {
    name: String,
    glob_set: globset::GlobSet,
    program: String,
    shell: bool,
    args: Vec<String>,
    env: OrderedMap<String>,
}

impl View for Runner {
    type V = RunnerSpec;

    closed spec fn view(&self) -> RunnerSpec {
        RunnerSpec {
            name: self.name@,
            globs: glob_set_globs(self.glob_set),
            program: self.program@,
            shell: self.shell,
            args: self.args.deep_view(),
            env: self.env.deep_view(),
        }
    }
}

impl DeepView for Runner {
    type V = RunnerSpec;

    open spec fn deep_view(&self) -> RunnerSpec {
        self@
    }
}

/// Appends a copy of every string of `src` to `dst`, in order.
pub fn append_copies(dst: &mut Vec<String>, src: &Vec<String>)
    ensures
        final(dst).deep_view() == old(dst).deep_view() + src.deep_view(),
{
    let ghost head = dst.deep_view();
    let mut i: usize = 0;
    while i < src.len()
        invariant
            0 <= i <= src.len(),
            dst.deep_view() == head + src.deep_view().take(i as int),
        decreases src.len() - i,
    {
        let ghost before = dst.deep_view();
        dst.push(src[i].clone());
        assert(dst.deep_view() =~= before.push(src.deep_view()[i as int]));
        assert(dst.deep_view() =~= head + src.deep_view().take(i as int + 1));
        i += 1;
    }
    assert(src.deep_view().take(i as int) == src.deep_view());
}

impl Runner {
    /// Create a new runner by consuming a formatter. Fails exactly where the
    /// formatter's patterns do not compile: at its first invalid pattern.
    pub fn from_formatter(name: String, fmt: FormatterConfig) -> (res: Result<Self, GlobError>)
        ensures
            res is Ok <==> compilable(globs_of(fmt@.patterns)),
            res matches Ok(runner) ==> runner@ == RunnerSpec::of(name@, fmt@),
            res matches Err(error) ==> all_valid(globs_of(fmt@.patterns)) || blames_first_invalid(
                fmt@.patterns,
                error,
            ),
    {
        let glob_set = match Self::build_glob_set(&fmt.patterns) {
            Ok(glob_set) => glob_set,
            Err(error) => {
                return Err(error);
            },
        };
        let runner = Runner {
            name,
            glob_set,
            program: fmt.program,
            shell: fmt.shell,
            args: fmt.args,
            env: fmt.env,
        };
        Ok(runner)
    }

    fn build_glob_set(patterns: &Vec<String>) -> (res: Result<globset::GlobSet, GlobError>)
        ensures
            res is Ok <==> compilable(globs_of(patterns.deep_view())),
            res matches Ok(set) ==> glob_set_globs(set) == globs_of(patterns.deep_view()),
            res matches Err(error) ==> all_valid(globs_of(patterns.deep_view()))
                || blames_first_invalid(patterns.deep_view(), error),
    {
        glob_set_from_iter(patterns)
    }

    /// Starts a run of the formatter on `paths`: returns the process that the
    /// caller is to execute in `working_dir`. How that process ends is judged
    /// by [`Runner::inspect`].
    pub fn run(&self, platform: Platform, working_dir: &str, paths: &Vec<String>) -> (res:
        Invocation)
        ensures
            res@ == self@.invocation(platform, working_dir@, paths.deep_view()),
    {
        let (program, mut args) = if self.shell {
            self.new_shell_cmd(platform)
        } else {
            (self.program.clone(), Vec::new())
        };
        append_copies(&mut args, &self.args);
        append_copies(&mut args, paths);
        let mut env: Vec<(String, String)> = Vec::new();
        let mut k: usize = 0;
        while k < self.env.len()
            invariant
                0 <= k <= self.env@.len(),
                env@.len() == k,
                forall|n: int|
                    0 <= n < k ==> (#[trigger] env@[n]).0@ == self.env@[n].0 && env@[n].1@
                        == self.env@[n].1@,
            decreases self.env@.len() - k,
        {
            env.push((self.env.key(k).clone(), self.env.value(k).clone()));
            k += 1;
        }
        let res = Invocation { program, args, working_dir: working_dir.to_owned(), env };
        assert(res@.env =~= self@.env);
        assert(res@.args =~= self@.invocation(platform, working_dir@, paths.deep_view()).args);
        res
    }

    /// The start of a command that hands the program text to the platform's
    /// command interpreter: the interpreter and its first two arguments, the
    /// run-this-string flag and the program text as one argument. The preset
    /// arguments and the paths are not part of it yet.
    pub fn new_shell_cmd(&self, platform: Platform) -> (res: (String, Vec<String>))
        ensures
            res.0@ == platform.shell_program(),
            res.1.deep_view() == seq![platform.shell_flag(), self@.program],
    {
        let (shell, flag) = match platform {
            Platform::Posix => ("sh", "-c"),
            Platform::Windows => ("cmd.exe", "/c"),
        };
        let mut args: Vec<String> = Vec::new();
        args.push(flag.to_owned());
        args.push(self.program.clone());
        assert(args.deep_view() =~= seq![platform.shell_flag(), self@.program]);
        (shell.to_owned(), args)
    }

    /// Judges how a process ended: only exit code zero is success.
    pub fn inspect(report: ExitReport) -> (res: Result<(), Error>)
        ensures
            res == result_of(report),
    {
        match report {
            Ok(Some(code)) => if code == 0 {
                Ok(())
            } else {
                Err(Error::ProgramFailed)
            },
            Ok(None) => Err(Error::ProgramFailed),
            Err(cause) => Err(Error::ExecFailed(cause)),
        }
    }

    /// Whether the runner's patterns match the path, taken relative to the
    /// project root.
    pub fn accepts(&self, rel_path: &str) -> (res: bool)
        ensures
            res == self@.accepts(rel_path@),
    {
        crate::glob::glob_set_is_match(&self.glob_set, rel_path)
    }

    pub fn name(&self) -> (res: &str)
        ensures
            res@ == self@.name,
    {
        self.name.as_str()
    }

    pub fn glob_set(&self) -> (res: &globset::GlobSet)
        ensures
            glob_set_globs(*res) == self@.globs,
    {
        &self.glob_set
    }

    pub fn program(&self) -> (res: &str)
        ensures
            res@ == self@.program,
    {
        self.program.as_str()
    }

    pub fn args(&self) -> (res: &Vec<String>)
        ensures
            res.deep_view() == self@.args,
    {
        &self.args
    }

    pub fn env(&self) -> (res: &OrderedMap<String>)
        ensures
            res.deep_view() == self@.env,
    {
        &self.env
    }
}

} // verus!
