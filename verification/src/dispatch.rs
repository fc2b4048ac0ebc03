//! The run of the formatters: which processes are to be executed, in which
//! order, and what their ends add up to.
//!
//! The library starts no process itself. A [`Dispatch`] hands out one job at
//! a time; the caller executes it and reports how it ended. Every job is
//! handed out whatever the earlier ones came to.

use vstd::prelude::*;
use vstd::string::StringExecFns;
use crate::classify::{
    Diagnostic, DiagnosticSpec, EntrySpec, FileSpec, claimed, diagnostics, lemma_claimed_is_owned,
    lemma_owner, none_accepts,
};
use crate::runner::{Error, ExitReport, Invocation, InvocationSpec, Platform, Runner, RunnerSpec, result_of};

verus! {

/// One process to execute on behalf of a formatter.
#[derive(Clone, Debug, PartialEq, Eq)]
pub struct Job {
    /// The position of the formatter in declaration order.
    pub formatter: usize,
    pub formatter_name: String,
    pub invocation: Invocation,
}

/// A job as plain values.
pub struct JobSpec {
    pub formatter: int,
    pub formatter_name: Seq<char>,
    pub invocation: InvocationSpec,
}

impl View for Job {
    type V = JobSpec;

    open spec fn view(&self) -> JobSpec {
        JobSpec {
            formatter: self.formatter as int,
            formatter_name: self.formatter_name@,
            invocation: self.invocation@,
        }
    }
}

impl DeepView for Job {
    type V = JobSpec;

    open spec fn deep_view(&self) -> JobSpec {
        self@
    }
}

/// How the run of one formatter ended.
#[derive(Debug)]
pub struct RunOutcome {
    pub formatter_name: String,
    /// `Ok` where the formatter succeeded, else the cause of the failure.
    pub result: Result<(), Error>,
}

/// A run outcome as plain values.
pub struct OutcomeSpec {
    pub formatter_name: Seq<char>,
    pub result: Result<(), Error>,
}

impl OutcomeSpec {
    pub open spec fn succeeded(self) -> bool {
        self.result is Ok
    }
}

impl View for RunOutcome {
    type V = OutcomeSpec;

    open spec fn view(&self) -> OutcomeSpec {
        OutcomeSpec { formatter_name: self.formatter_name@, result: self.result }
    }
}

impl DeepView for RunOutcome {
    type V = OutcomeSpec;

    open spec fn deep_view(&self) -> OutcomeSpec {
        self@
    }
}

impl OutcomeSpec {
    /// How the report of a failed formatter begins; the cause follows.
    pub open spec fn failure_prefix(self) -> Seq<char> {
        "formatter "@ + self.formatter_name + " failed to run: "@
    }
}

impl RunOutcome {
    /// Whether the formatter succeeded.
    pub fn succeeded(&self) -> (res: bool)
        ensures
            res == self@.succeeded(),
    {
        self.result.is_ok()
    }

    /// The report of a failed formatter, as one line for a log: its name and
    /// the cause of the failure. A formatter that succeeded has none.
    pub fn message(&self) -> (res: Option<String>)
        ensures
            res is Some <==> !self@.succeeded(),
            res matches Some(text) ==> self@.failure_prefix().is_prefix_of(text@),
            res matches Some(text) ==> (self.result == Err::<(), Error>(Error::ProgramFailed)
                ==> text@ == self@.failure_prefix() + Error::program_failed_message()),
            res matches Some(text) ==> (self.result matches Err(Error::ExecFailed(cause))
                ==> exists|words: String|
                vstd::string::to_string_from_display_ensures::<std::io::Error>(&cause, words)
                    && text@ == self@.failure_prefix() + words@),
    {
        match &self.result {
            Ok(_) => None,
            Err(error) => {
                let mut text = "formatter ".to_owned();
                text.append(self.formatter_name.as_str());
                text.append(" failed to run: ");
                let ghost prefix = text@;
                let words = error.message();
                text.append(words.as_str());
                assert(text@.subrange(0, prefix.len() as int) =~= prefix);
                assert(text@ == self@.failure_prefix() + words@);
                Some(text)
            },
        }
    }
}

/// Every outcome is a success. This holds of no outcomes at all.
pub open spec fn all_succeeded(outcomes: Seq<OutcomeSpec>) -> bool {
    forall|i: int| 0 <= i < outcomes.len() ==> (#[trigger] outcomes[i]).succeeded()
}

/// The overall result of a run: the conjunction of the outcomes.
pub fn aggregate(outcomes: &Vec<RunOutcome>) -> (res: bool)
    ensures
        res == all_succeeded(outcomes.deep_view()),
{
    let mut all: bool = true;
    let mut i: usize = 0;
    while i < outcomes.len()
        invariant
            0 <= i <= outcomes.len(),
            all == all_succeeded(outcomes.deep_view().take(i as int)),
        decreases outcomes.len() - i,
    {
        let ghost seen = outcomes.deep_view().take(i as int);
        let ghost more = outcomes.deep_view().take(i as int + 1);
        assert(more[i as int] == outcomes@[i as int]@);
        assert(forall|k: int| 0 <= k < i ==> more[k] == seen[k]);
        if !outcomes[i].succeeded() {
            all = false;
        }
        assert(all == all_succeeded(more)) by {
            if all_succeeded(more) {
                assert forall|k: int| 0 <= k < seen.len() implies (#[trigger] seen[k]).succeeded() by {
                    assert(more[k].succeeded());
                }
            }
        }
        i += 1;
    }
    assert(outcomes.deep_view().take(i as int) =~= outcomes.deep_view());
    all
}

/// The paths that a formatter is given for the files it claimed.
pub open spec fn paths_of(files: Seq<FileSpec>) -> Seq<Seq<char>> {
    Seq::new(files.len(), |i: int| files[i].path)
}

/// The job of the runner at `position`: its program on the files it claimed,
/// started in the project root.
pub open spec fn job_for(
    root_dir: Seq<char>,
    runners: Seq<RunnerSpec>,
    platform: Platform,
    entries: Seq<EntrySpec>,
    position: int,
) -> JobSpec {
    JobSpec {
        formatter: position,
        formatter_name: runners[position].name,
        invocation: runners[position].invocation(
            platform,
            root_dir,
            paths_of(claimed(runners, entries, position)),
        ),
    }
}

/// The jobs for the first `count` runners: one for each runner that claimed
/// a file, in declaration order. A runner that claimed nothing has no job.
pub open spec fn jobs_among(
    root_dir: Seq<char>,
    runners: Seq<RunnerSpec>,
    platform: Platform,
    entries: Seq<EntrySpec>,
    count: nat,
) -> Seq<JobSpec>
    decreases count,
{
    if count == 0 {
        Seq::empty()
    } else {
        let before = jobs_among(root_dir, runners, platform, entries, (count - 1) as nat);
        if claimed(runners, entries, count - 1).len() == 0 {
            before
        } else {
            before.push(job_for(root_dir, runners, platform, entries, count - 1))
        }
    }
}

/// The jobs of a run over the given walk entries.
pub open spec fn jobs(
    root_dir: Seq<char>,
    runners: Seq<RunnerSpec>,
    platform: Platform,
    entries: Seq<EntrySpec>,
) -> Seq<JobSpec> {
    jobs_among(root_dir, runners, platform, entries, runners.len())
}

/// The state of a run as plain values: the jobs in order, the outcomes of
/// those already executed, and the diagnostics of the assignment.
pub struct DispatchSpec {
    pub jobs: Seq<JobSpec>,
    pub outcomes: Seq<OutcomeSpec>,
    pub diagnostics: Seq<DiagnosticSpec>,
}

impl DispatchSpec {
    /// The state before any job was executed.
    pub open spec fn start(jobs: Seq<JobSpec>, diagnostics: Seq<DiagnosticSpec>) -> DispatchSpec {
        DispatchSpec { jobs, outcomes: Seq::empty(), diagnostics }
    }

    /// The job to execute next, none when every job has its outcome.
    pub open spec fn pending(self) -> Option<JobSpec> {
        if self.outcomes.len() < self.jobs.len() {
            Some(self.jobs[self.outcomes.len() as int])
        } else {
            None
        }
    }

    pub open spec fn is_done(self) -> bool {
        self.pending() is None
    }

    /// The state after the pending job ended as reported. With no job
    /// pending the state stays as it is.
    pub open spec fn record(self, report: ExitReport) -> DispatchSpec {
        match self.pending() {
            Some(job) => DispatchSpec {
                outcomes: self.outcomes.push(
                    OutcomeSpec { formatter_name: job.formatter_name, result: result_of(report) },
                ),
                ..self
            },
            None => self,
        }
    }

    /// The state after one report for each of the next jobs, in order.
    pub open spec fn record_all(self, reports: Seq<ExitReport>) -> DispatchSpec
        decreases reports.len(),
    {
        if reports.len() == 0 {
            self
        } else {
            self.record_all(reports.drop_last()).record(reports.last())
        }
    }

    /// Every job executed so far succeeded.
    pub open spec fn succeeded(self) -> bool {
        all_succeeded(self.outcomes)
    }
}

/// A run in progress.
#[derive(Debug)]
pub struct Dispatch {
    jobs: Vec<Job>,
    outcomes: Vec<RunOutcome>,
    diagnostics: Vec<Diagnostic>,
}

impl View for Dispatch {
    type V = DispatchSpec;

    closed spec fn view(&self) -> DispatchSpec {
        DispatchSpec {
            jobs: self.jobs.deep_view(),
            outcomes: self.outcomes.deep_view(),
            diagnostics: self.diagnostics.deep_view(),
        }
    }
}

impl Dispatch {
    /// A run that has the given jobs before it.
    pub fn new(jobs: Vec<Job>, diagnostics: Vec<Diagnostic>) -> (res: Dispatch)
        ensures
            res@ == DispatchSpec::start(jobs.deep_view(), diagnostics.deep_view()),
    {
        let res = Dispatch { jobs, outcomes: Vec::new(), diagnostics };
        assert(res@.outcomes =~= Seq::<OutcomeSpec>::empty());
        res
    }

    /// The job to execute next, `None` when the run is over.
    pub fn next(&self) -> (res: Option<&Job>)
        ensures
            match self@.pending() {
                Some(job) => res is Some && res->0@ == job,
                None => res is None,
            },
    {
        if self.outcomes.len() < self.jobs.len() {
            Some(&self.jobs[self.outcomes.len()])
        } else {
            None
        }
    }

    /// Takes note of how the pending job ended and moves on to the next
    /// one, whether this one succeeded or not.
    pub fn record(&mut self, report: ExitReport)
        ensures
            final(self)@ == old(self)@.record(report),
    {
        if self.outcomes.len() < self.jobs.len() {
            let ghost before = self.outcomes.deep_view();
            let formatter_name = self.jobs[self.outcomes.len()].formatter_name.clone();
            let outcome = RunOutcome { formatter_name, result: Runner::inspect(report) };
            self.outcomes.push(outcome);
            assert(self.outcomes.deep_view() =~= before.push(outcome@));
        }
    }

    /// Whether every job has been executed.
    pub fn is_done(&self) -> (res: bool)
        ensures
            res == self@.is_done(),
    {
        self.outcomes.len() >= self.jobs.len()
    }

    /// Whether every job executed so far succeeded. Once the run is over
    /// this is its overall result; a run without jobs succeeds.
    pub fn succeeded(&self) -> (res: bool)
        ensures
            res == self@.succeeded(),
    {
        aggregate(&self.outcomes)
    }

    /// The outcomes of the jobs executed so far, in order.
    pub fn outcomes(&self) -> (res: &Vec<RunOutcome>)
        ensures
            res.deep_view() == self@.outcomes,
    {
        &self.outcomes
    }

    /// What the assignment of files reported.
    pub fn diagnostics(&self) -> (res: &Vec<Diagnostic>)
        ensures
            res.deep_view() == self@.diagnostics,
    {
        &self.diagnostics
    }
}

/// The jobs among the first `count` runners are the jobs of exactly those
/// runners that claimed a file, in declaration order.
pub proof fn lemma_jobs_among(
    root_dir: Seq<char>,
    runners: Seq<RunnerSpec>,
    platform: Platform,
    entries: Seq<EntrySpec>,
    count: nat,
)
    ensures
        forall|i: int|
            0 <= i < jobs_among(root_dir, runners, platform, entries, count).len() ==> {
                let job = #[trigger] jobs_among(root_dir, runners, platform, entries, count)[i];
                &&& 0 <= job.formatter < count
                &&& claimed(runners, entries, job.formatter).len() > 0
                &&& job == job_for(root_dir, runners, platform, entries, job.formatter)
            },
        forall|i: int, j: int|
            #![trigger jobs_among(root_dir, runners, platform, entries, count)[i], jobs_among(root_dir, runners, platform, entries, count)[j]]
            0 <= i < j < jobs_among(root_dir, runners, platform, entries, count).len()
                ==> jobs_among(root_dir, runners, platform, entries, count)[i].formatter
                < jobs_among(root_dir, runners, platform, entries, count)[j].formatter,
        forall|position: int|
            0 <= position < count && (#[trigger] claimed(runners, entries, position)).len() > 0
                ==> jobs_among(root_dir, runners, platform, entries, count).contains(
                job_for(root_dir, runners, platform, entries, position),
            ),
    decreases count,
{
    if count > 0 {
        let before = jobs_among(root_dir, runners, platform, entries, (count - 1) as nat);
        let now = jobs_among(root_dir, runners, platform, entries, count);
        lemma_jobs_among(root_dir, runners, platform, entries, (count - 1) as nat);
        assert forall|position: int|
            0 <= position < count && (#[trigger] claimed(runners, entries, position)).len()
                > 0 implies now.contains(job_for(root_dir, runners, platform, entries, position)) by {
            let job = job_for(root_dir, runners, platform, entries, position);
            if position < count - 1 {
                let at: int = choose|at: int| 0 <= at < before.len() && before[at] == job;
                assert(now[at] == job);
            } else {
                assert(now[now.len() - 1] == job);
            }
        }
    }
}

/// Reports recorded one after the other from the start of a run give each
/// job, in order, the outcome that its report means. No job is skipped,
/// whatever the reports say.
pub proof fn lemma_record_all(start: DispatchSpec, reports: Seq<ExitReport>)
    requires
        start.outcomes.len() == 0,
        reports.len() <= start.jobs.len(),
    ensures
        start.record_all(reports).jobs == start.jobs,
        start.record_all(reports).diagnostics == start.diagnostics,
        start.record_all(reports).outcomes.len() == reports.len(),
        forall|i: int|
            0 <= i < reports.len() ==> (#[trigger] start.record_all(reports).outcomes[i]) == (
            OutcomeSpec {
                formatter_name: start.jobs[i].formatter_name,
                result: result_of(reports[i]),
            }),
    decreases reports.len(),
{
    if reports.len() > 0 {
        lemma_record_all(start, reports.drop_last());
    }
}

/// Failure isolation: a job that fails stops nothing. Whatever the reports
/// of the jobs before it, each later job is handed out in its turn; once
/// all reports are in the run is over, and it has failed as a whole.
pub proof fn lemma_failure_isolation(
    start: DispatchSpec,
    reports: Seq<ExitReport>,
    failing: int,
    later: int,
)
    requires
        start.outcomes.len() == 0,
        reports.len() == start.jobs.len(),
        0 <= failing < later < reports.len(),
        result_of(reports[failing]) is Err,
    ensures
        start.record_all(reports.take(later)).pending() == Some(start.jobs[later]),
        start.record_all(reports).is_done(),
        !start.record_all(reports).succeeded(),
{
    lemma_record_all(start, reports.take(later));
    lemma_record_all(start, reports);
    assert(!start.record_all(reports).outcomes[failing].succeeded());
}

/// The overall result of a finished run is the conjunction of what the
/// reports mean.
pub proof fn lemma_success_is_conjunction(start: DispatchSpec, reports: Seq<ExitReport>)
    requires
        start.outcomes.len() == 0,
        reports.len() == start.jobs.len(),
    ensures
        start.record_all(reports).is_done(),
        start.record_all(reports).succeeded() <==> forall|i: int|
            0 <= i < reports.len() ==> result_of(#[trigger] reports[i]) is Ok,
{
    lemma_record_all(start, reports);
    let end = start.record_all(reports);
    if end.succeeded() {
        assert forall|i: int| 0 <= i < reports.len() implies result_of(#[trigger] reports[i]) is Ok by {
            assert(end.outcomes[i].succeeded());
        }
    }
}

/// Vacuous run: where no runner accepts any file of the walk, there is no
/// job to execute, and the run is over at its start with overall success.
pub proof fn lemma_vacuous_run(
    root_dir: Seq<char>,
    runners: Seq<RunnerSpec>,
    platform: Platform,
    entries: Seq<EntrySpec>,
)
    requires
        forall|i: int|
            0 <= i < entries.len() && (#[trigger] entries[i]) is File ==> none_accepts(
                runners,
                entries[i]->File_0.rel_path,
            ),
    ensures
        jobs(root_dir, runners, platform, entries).len() == 0,
        DispatchSpec::start(
            jobs(root_dir, runners, platform, entries),
            diagnostics(runners, entries),
        ).pending() is None,
        DispatchSpec::start(
            jobs(root_dir, runners, platform, entries),
            diagnostics(runners, entries),
        ).succeeded(),
{
    let all = jobs(root_dir, runners, platform, entries);
    lemma_jobs_among(root_dir, runners, platform, entries, runners.len());
    if all.len() > 0 {
        let position: int = all[0].formatter;
        let files = claimed(runners, entries, position);
        lemma_claimed_is_owned(runners, entries, position, 0);
        lemma_owner(runners, files[0].rel_path);
        let at: int = choose|at: int| 0 <= at < entries.len() && entries[at] == EntrySpec::File(files[0]);
        assert(none_accepts(runners, entries[at]->File_0.rel_path));
        assert(runners[position].accepts(files[0].rel_path));
    }
}

} // verus!
