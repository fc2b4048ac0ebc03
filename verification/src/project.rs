//! A project: its root directory and its formatters in declaration order.
//! Files found under the root are assigned to formatters here, and the run of
//! the formatters is decided here.

use vstd::prelude::*;
use vstd::string::StringExecFns;
use crate::classify::{
    CandidateFile, Classification, Diagnostic, DiagnosticSpec, EntrySpec, FileSpec, WalkEntry,
    claimed, claims, diagnosis, diagnostics, lemma_claimed_step, lemma_diagnostics_step,
    matching, matching_among, names_at,
};
use crate::config::{Config, FormatterSpec};
use crate::dispatch::{Dispatch, DispatchSpec, Job, jobs, jobs_among, paths_of};
use crate::glob::GlobError;
use crate::runner::{Platform, Runner, RunnerSpec};
use crate::util::{all_valid, blames_first_invalid, compilable, globs_of};

verus! {

/// A project as the library models it.
pub struct ProjectSpec {
    pub root_dir: Seq<char>,
    pub runners: Seq<RunnerSpec>,
}

/// The runners that the formatters of a configuration stand for.
pub open spec fn runners_of(formatters: Seq<(Seq<char>, FormatterSpec)>) -> Seq<RunnerSpec> {
    Seq::new(formatters.len(), |i: int| RunnerSpec::of(formatters[i].0, formatters[i].1))
}

/// No two runners have the same name.
pub open spec fn distinct_names(runners: Seq<RunnerSpec>) -> bool {
    forall|i: int, j: int|
        0 <= i < j < runners.len() ==> (#[trigger] runners[i]).name != (#[trigger] runners[j]).name
}

/// A project directory with its formatters ready to run. The formatters
/// stand in declaration order and their names are pairwise distinct.
#[derive(Debug)]
pub struct Project {
    root_dir: String,
    runners: Vec<Runner>,
}

impl View for Project {
    type V = ProjectSpec;

    closed spec fn view(&self) -> ProjectSpec {
        ProjectSpec { root_dir: self.root_dir@, runners: self.runners.deep_view() }
    }
}

/// Why a project could not be loaded.
#[derive(Clone, Debug, PartialEq, Eq)]
pub enum LoadError {
    /// No configuration file was found where it was looked for.
    NoConfigFile,
    /// A formatter has a pattern that is no valid glob, or its patterns do
    /// not compile together.
    InvalidGlob(GlobError),
    /// No root directory was given and the working directory is not known.
    CwdNotAccessible,
}

impl LoadError {
    /// The error in words, without its cause.
    pub open spec fn spec_message(self) -> Seq<char> {
        match self {
            LoadError::NoConfigFile => "could not find the config file"@,
            LoadError::InvalidGlob(_) => "invalid glob pattern found"@,
            LoadError::CwdNotAccessible => "failed to get the current working directory"@,
        }
    }

    /// The error in words, without its cause.
    pub fn message(&self) -> (res: String)
        ensures
            res@ == self.spec_message(),
    {
        match self {
            LoadError::NoConfigFile => "could not find the config file".to_owned(),
            LoadError::InvalidGlob(_) => "invalid glob pattern found".to_owned(),
            LoadError::CwdNotAccessible => "failed to get the current working directory".to_owned(),
        }
    }

    /// The cause of the error in words, where it has one: what the glob
    /// compiler said of the pattern it refused.
    pub fn cause(&self) -> (res: Option<String>)
        ensures
            match self {
                LoadError::InvalidGlob(error) => res is Some && res->0@ == error.message@,
                _ => res is None,
            },
    {
        match self {
            LoadError::InvalidGlob(error) => Some(error.message.clone()),
            _ => None,
        }
    }
}

/// A message followed by its causes, outermost first: the first line is the
/// message, each further line a cause introduced by `cause: `.
pub open spec fn chained(messages: Seq<Seq<char>>) -> Seq<char>
    decreases messages.len(),
{
    if messages.len() == 0 {
        Seq::empty()
    } else if messages.len() == 1 {
        messages[0]
    } else {
        chained(messages.drop_last()) + "\ncause: "@ + messages.last()
    }
}

/// Renders a fatal error with the chain of its causes, outermost first.
pub fn chain_message(messages: &Vec<String>) -> (res: String)
    ensures
        res@ == chained(messages.deep_view()),
{
    let mut text = String::new();
    let mut i: usize = 0;
    while i < messages.len()
        invariant
            0 <= i <= messages.len(),
            text@ == chained(messages.deep_view().take(i as int)),
        decreases messages.len() - i,
    {
        proof {
            let more = messages.deep_view().take(i as int + 1);
            assert(more.drop_last() =~= messages.deep_view().take(i as int));
            assert(more.last() == messages@[i as int]@);
        }
        if i > 0 {
            text.append("\ncause: ");
        } else {
            assert(text@ + messages@[i as int]@ =~= messages@[i as int]@);
        }
        text.append(messages[i].as_str());
        i += 1;
    }
    assert(messages.deep_view().take(i as int) =~= messages.deep_view());
    text
}

/// The formatter at `index` is the first whose patterns do not compile.
pub open spec fn first_failing(formatters: Seq<(Seq<char>, FormatterSpec)>, index: int) -> bool {
    &&& 0 <= index < formatters.len()
    &&& !compilable(globs_of(formatters[index].1.patterns))
    &&& forall|j: int|
        0 <= j < index ==> compilable(globs_of((#[trigger] formatters[j]).1.patterns))
}

/// The patterns of every formatter compile.
pub open spec fn all_compilable(formatters: Seq<(Seq<char>, FormatterSpec)>) -> bool {
    forall|i: int|
        0 <= i < formatters.len() ==> compilable(globs_of((#[trigger] formatters[i]).1.patterns))
}

/// The error is the one that the first formatter whose patterns do not
/// compile gives: where one of its patterns is invalid, the error names the
/// first such pattern.
pub open spec fn reports_first_failing(
    formatters: Seq<(Seq<char>, FormatterSpec)>,
    error: LoadError,
) -> bool {
    exists|i: int| #[trigger]
        first_failing(formatters, i) && error is InvalidGlob && (all_valid(
            globs_of(formatters[i].1.patterns),
        ) || blames_first_invalid(formatters[i].1.patterns, error->InvalidGlob_0))
}

/// A configuration file was found where the arguments say to look: directly
/// in the given root directory, or else in the working directory or the
/// nearest directory above it.
pub open spec fn found_where_sought(
    root_dir: Option<String>,
    cwd: Option<String>,
    root: Seq<char>,
    file: Seq<char>,
) -> bool {
    &&& Config::names_config_file(root, file)
    &&& match root_dir {
        Some(given) => root == given@,
        None => match cwd {
            Some(dir) => Config::is_self_or_ancestor(dir@, root),
            None => false,
        },
    }
}

/// The positions held in a vector, as integers.
pub open spec fn positions(indices: Seq<usize>) -> Seq<int> {
    Seq::new(indices.len(), |k: int| indices[k] as int)
}

impl Project {
    #[verifier::type_invariant]
    spec fn names_differ(&self) -> bool {
        distinct_names(self@.runners)
    }

    /// Builds the project rooted at `root_dir` from its configuration: one
    /// runner per formatter, in declaration order. Fails at the first
    /// formatter whose patterns do not compile, before any file is touched.
    pub fn load(root_dir: String, config: Config) -> (res: Result<Project, LoadError>)
        ensures
            res is Ok <==> all_compilable(config.formatters.deep_view()),
            res matches Ok(project) ==> project@ == (ProjectSpec {
                root_dir: root_dir@,
                runners: runners_of(config.formatters.deep_view()),
            }),
            res matches Err(error) ==> reports_first_failing(config.formatters.deep_view(), error),
    {
        let ghost formatters = config.formatters.deep_view();
        let count: usize = config.formatters.len();
        assert(distinct_names(runners_of(formatters))) by {
            assert forall|i: int, j: int| 0 <= i < j < formatters.len() implies (
            #[trigger] runners_of(formatters)[i]).name != (#[trigger] runners_of(
                formatters,
            )[j]).name by {
                assert(config.formatters@[i].0 != config.formatters@[j].0);
            }
        }
        let entries = config.formatters.into_entries();
        assert(formatters.len() == entries@.len());
        assert forall|i: int| 0 <= i < entries@.len() implies (#[trigger] entries@[i]).0@
            == formatters[i].0 && entries@[i].1@ == formatters[i].1 by {}
        let mut runners: Vec<Runner> = Vec::with_capacity(count);
        for entry in iter: entries
            invariant
                formatters == config.formatters.deep_view(),
                formatters.len() == iter.seq().len(),
                forall|i: int|
                    0 <= i < iter.seq().len() ==> (#[trigger] iter.seq()[i]).0@ == formatters[i].0
                        && iter.seq()[i].1@ == formatters[i].1,
                runners@.len() == iter.index(),
                forall|i: int|
                    0 <= i < iter.index() ==> (#[trigger] runners@[i])@ == RunnerSpec::of(
                        formatters[i].0,
                        formatters[i].1,
                    ),
                forall|i: int|
                    0 <= i < iter.index() ==> compilable(
                        globs_of((#[trigger] formatters[i]).1.patterns),
                    ),
        {
            let ghost at = iter.index() as int;
            let (name, fmt) = entry;
            match Runner::from_formatter(name, fmt) {
                Ok(runner) => {
                    runners.push(runner);
                },
                Err(error) => {
                    let error = LoadError::InvalidGlob(error);
                    assert(first_failing(formatters, at));
                    return Err(error);
                },
            }
        }
        assert(runners.deep_view() =~= runners_of(formatters));
        Ok(Project { root_dir, runners })
    }

    /// What a search for the configuration file comes to: the place found,
    /// or `NoConfigFile`.
    pub fn located(found: Option<(String, String)>) -> (res: Result<(String, String), LoadError>)
        ensures
            match found {
                Some(place) => res == Ok::<(String, String), LoadError>(place),
                None => res == Err::<(String, String), LoadError>(LoadError::NoConfigFile),
            },
    {
        match found {
            Some(place) => Ok(place),
            None => Err(LoadError::NoConfigFile),
        }
    }

    /// Finds the project root and its configuration file.
    ///
    /// With a root directory given, that directory must hold the file. With
    /// none given, the search starts at the working directory `cwd` and goes
    /// upwards; it cannot start if `cwd` is not known. What is on disk
    /// decides the rest: either the place found, or `NoConfigFile`.
    pub fn find_config(root_dir: Option<String>, cwd: Option<String>) -> (res: Result<
        (String, String),
        LoadError,
    >)
        ensures
            root_dir is None && cwd is None <==> res == Err::<(String, String), LoadError>(
                LoadError::CwdNotAccessible,
            ),
            res matches Err(error) ==> error is CwdNotAccessible || error is NoConfigFile,
            res matches Ok((root, file)) ==> found_where_sought(root_dir, cwd, root@, file@),
    {
        let found = match root_dir {
            Some(given) => {
                match Config::check_dir(given.as_str()) {
                    Some(file) => Some((given, file)),
                    None => None,
                }
            },
            None => {
                match cwd {
                    Some(dir) => Config::find(dir.as_str()),
                    None => {
                        return Err(LoadError::CwdNotAccessible);
                    },
                }
            },
        };
        Self::located(found)
    }

    /// The directory that relative paths are taken from.
    pub fn root_dir(&self) -> (res: &str)
        ensures
            res@ == self@.root_dir,
    {
        self.root_dir.as_str()
    }

    /// The runners in declaration order. Their names are pairwise distinct.
    pub fn runners(&self) -> (res: &Vec<Runner>)
        ensures
            res.deep_view() == self@.runners,
            distinct_names(self@.runners),
    {
        proof {
            use_type_invariant(self);
        }
        &self.runners
    }

    /// The positions of the runners that accept the path, in declaration
    /// order.
    pub fn matching(&self, rel_path: &str) -> (res: Vec<usize>)
        ensures
            positions(res@) == matching(self@.runners, rel_path@),
            forall|k: int| 0 <= k < res@.len() ==> (#[trigger] res@[k]) < self@.runners.len(),
    {
        let mut matched: Vec<usize> = Vec::new();
        let mut i: usize = 0;
        while i < self.runners.len()
            invariant
                0 <= i <= self.runners.len(),
                self@.runners.len() == self.runners@.len(),
                positions(matched@) == matching_among(self@.runners, rel_path@, i as nat),
                forall|k: int| 0 <= k < matched@.len() ==> (#[trigger] matched@[k]) < i,
            decreases self.runners.len() - i,
        {
            let ghost before = positions(matched@);
            if self.runners[i].accepts(rel_path) {
                matched.push(i);
                assert(positions(matched@) =~= before.push(i as int));
            }
            i += 1;
        }
        matched
    }

    /// The names of the runners at the given positions, the first `from`
    /// positions left out.
    fn names_from(&self, matched: &Vec<usize>, from: usize) -> (res: Vec<String>)
        requires
            from <= matched@.len(),
            forall|k: int| 0 <= k < matched@.len() ==> (#[trigger] matched@[k]) < self@.runners.len(),
        ensures
            res.deep_view() == names_at(self@.runners, positions(matched@).skip(from as int)),
    {
        let mut names: Vec<String> = Vec::new();
        let mut i: usize = from;
        while i < matched.len()
            invariant
                from <= i <= matched@.len(),
                self@.runners.len() == self.runners@.len(),
                forall|k: int|
                    0 <= k < matched@.len() ==> (#[trigger] matched@[k]) < self@.runners.len(),
                names@.len() == i - from,
                forall|k: int|
                    0 <= k < names@.len() ==> (#[trigger] names@[k])@ == self@.runners[matched@[k
                        + from] as int].name,
            decreases matched@.len() - i,
        {
            names.push(self.runners[matched[i]].name().to_owned());
            i += 1;
        }
        assert(names.deep_view() =~= names_at(
            self@.runners,
            positions(matched@).skip(from as int),
        ));
        names
    }

    /// Walks over the entries of the project tree and partitions its files
    /// by matching each against the runners' patterns, in declaration order.
    ///
    /// A file that no runner accepts is reported and left out. A file that
    /// one runner accepts goes to that runner. A file that several accept
    /// goes to the first of them and is reported with the others' names. An
    /// entry that could not be read is reported and skipped; directories are
    /// skipped in silence.
    pub fn match_runners(&self, entries: &Vec<WalkEntry>) -> (res: Classification)
        ensures
            res.partitions@.len() == self@.runners.len(),
            forall|k: int|
                0 <= k < self@.runners.len() ==> (#[trigger] res.partitions@[k]).deep_view()
                    == claimed(self@.runners, entries.deep_view(), k),
            res.diagnostics.deep_view() == diagnostics(self@.runners, entries.deep_view()),
    {
        let ghost runners = self@.runners;
        let ghost all = entries.deep_view();
        let mut partitions: Vec<Vec<CandidateFile>> = Vec::new();
        let mut k: usize = 0;
        while k < self.runners.len()
            invariant
                0 <= k <= self.runners.len(),
                partitions@.len() == k,
                forall|n: int| 0 <= n < k ==> (#[trigger] partitions@[n])@.len() == 0,
            decreases self.runners.len() - k,
        {
            partitions.push(Vec::new());
            k += 1;
        }
        let mut reports: Vec<Diagnostic> = Vec::new();
        assert(all.take(0) =~= Seq::<EntrySpec>::empty());
        assert forall|n: int| 0 <= n < runners.len() implies (#[trigger] partitions@[n]).deep_view()
            == claimed(runners, all.take(0), n) by {
            assert(partitions@[n].deep_view() =~= Seq::<FileSpec>::empty());
        }
        assert(reports.deep_view() =~= diagnostics(runners, all.take(0)));
        let mut e: usize = 0;
        while e < entries.len()
            invariant
                0 <= e <= entries.len(),
                runners == self@.runners,
                all == entries.deep_view(),
                all.len() == entries@.len(),
                partitions@.len() == runners.len(),
                forall|n: int|
                    0 <= n < runners.len() ==> (#[trigger] partitions@[n]).deep_view() == claimed(
                        runners,
                        all.take(e as int),
                        n,
                    ),
                reports.deep_view() == diagnostics(runners, all.take(e as int)),
            decreases entries.len() - e,
        {
            let ghost reported = reports.deep_view();
            proof {
                lemma_diagnostics_step(runners, all, e as int);
                assert forall|n: int| 0 <= n < runners.len() implies claimed(
                    runners,
                    all.take(e as int + 1),
                    n,
                ) == (if claims(runners, all[e as int], n) {
                    claimed(runners, all.take(e as int), n).push(all[e as int]->File_0)
                } else {
                    claimed(runners, all.take(e as int), n)
                }) by {
                    lemma_claimed_step(runners, all, e as int, n);
                }
            }
            match &entries[e] {
                WalkEntry::Failed(cause) => {
                    reports.push(Diagnostic::EntrySkipped { cause: cause.clone() });
                    assert(reports.deep_view() =~= reported.push(
                        DiagnosticSpec::EntrySkipped { cause: cause@ },
                    ));
                },
                WalkEntry::Directory => {},
                WalkEntry::File(file) => {
                    let matched = self.matching(file.rel_path.as_str());
                    if matched.len() == 0 {
                        reports.push(Diagnostic::Unmatched { file: file.rel_path.clone() });
                        assert(reports.deep_view() =~= reported.push(
                            DiagnosticSpec::Unmatched { file: file.rel_path@ },
                        ));
                    } else {
                        let first: usize = matched[0];
                        assert(positions(matched@)[0] == first);
                        let copy = CandidateFile {
                            path: file.path.clone(),
                            rel_path: file.rel_path.clone(),
                        };
                        let ghost list = partitions@[first as int].deep_view();
                        partitions[first].push(copy);
                        assert(partitions@[first as int].deep_view() =~= list.push(file@));
                        if matched.len() > 1 {
                            let chosen = self.runners[first].name().to_owned();
                            let discarded = self.names_from(&matched, 1);
                            reports.push(
                                Diagnostic::Conflict {
                                    file: file.rel_path.clone(),
                                    chosen,
                                    discarded,
                                },
                            );
                            assert(reports.deep_view() =~= reported.push(
                                diagnosis(runners, all[e as int])->0,
                            ));
                        }
                    }
                },
            }
            e += 1;
        }
        assert(all.take(e as int) =~= all);
        Classification { partitions, diagnostics: reports }
    }

    /// The paths of the given files, in order.
    fn paths(files: &Vec<CandidateFile>) -> (res: Vec<String>)
        ensures
            res.deep_view() == paths_of(files.deep_view()),
    {
        let mut paths: Vec<String> = Vec::new();
        let mut i: usize = 0;
        while i < files.len()
            invariant
                0 <= i <= files.len(),
                paths@.len() == i,
                forall|k: int| 0 <= k < i ==> (#[trigger] paths@[k])@ == files@[k].path@,
            decreases files.len() - i,
        {
            paths.push(files[i].path.clone());
            i += 1;
        }
        assert(paths.deep_view() =~= paths_of(files.deep_view()));
        paths
    }

    /// Starts a run of the project over the entries of its tree: assigns
    /// the files to the runners and lines up one job for each runner that
    /// claimed a file, in declaration order. A runner without files gets no
    /// job. The caller executes the jobs that the returned [`Dispatch`]
    /// hands out and reports their ends to it.
    pub fn run(&self, platform: Platform, entries: &Vec<WalkEntry>) -> (res: Dispatch)
        ensures
            res@ == DispatchSpec::start(
                jobs(self@.root_dir, self@.runners, platform, entries.deep_view()),
                diagnostics(self@.runners, entries.deep_view()),
            ),
    {
        let Classification { partitions, diagnostics: reports } = self.match_runners(entries);
        let mut queue: Vec<Job> = Vec::new();
        assert(queue.deep_view() =~= jobs_among(
            self@.root_dir,
            self@.runners,
            platform,
            entries.deep_view(),
            0,
        ));
        let mut k: usize = 0;
        while k < self.runners.len()
            invariant
                0 <= k <= self.runners.len(),
                self@.runners.len() == self.runners@.len(),
                partitions@.len() == self@.runners.len(),
                forall|n: int|
                    0 <= n < self@.runners.len() ==> (#[trigger] partitions@[n]).deep_view()
                        == claimed(self@.runners, entries.deep_view(), n),
                queue.deep_view() == jobs_among(
                    self@.root_dir,
                    self@.runners,
                    platform,
                    entries.deep_view(),
                    k as nat,
                ),
            decreases self.runners.len() - k,
        {
            let ghost before = queue.deep_view();
            assert(partitions@[k as int].deep_view().len() == partitions@[k as int]@.len());
            if partitions[k].len() > 0 {
                let runner = &self.runners[k];
                let paths = Self::paths(&partitions[k]);
                let invocation = runner.run(platform, self.root_dir.as_str(), &paths);
                let job = Job { formatter: k, formatter_name: runner.name().to_owned(), invocation };
                queue.push(job);
                assert(queue.deep_view() =~= before.push(job@));
            }
            k += 1;
        }
        Dispatch::new(queue, reports)
    }
}

} // verus!
