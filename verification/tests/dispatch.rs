use forestry::classify::{CandidateFile, WalkEntry};
use forestry::config::{Config, FormatterConfig, GlobalConfig};
use forestry::dispatch::{aggregate, Dispatch, Job, RunOutcome};
use forestry::ordered_map::OrderedMap;
use forestry::project::Project;
use forestry::runner::{Error, Invocation, Platform};

fn tool(program: &str, patterns: &[&str]) -> FormatterConfig {
    FormatterConfig {
        program: program.to_string(),
        shell: false,
        args: Vec::new(),
        env: OrderedMap::new(),
        patterns: patterns.iter().map(|p| p.to_string()).collect(),
    }
}

fn build(formatters: Vec<(&str, FormatterConfig)>) -> Project {
    let mut map = OrderedMap::new();
    for (name, fmt) in formatters {
        map.insert(name.to_string(), fmt);
    }
    let config = Config { global: GlobalConfig::default(), formatters: map };
    Project::load("/work".to_string(), config).expect("patterns are valid")
}

fn found(rel: &str) -> WalkEntry {
    WalkEntry::File(CandidateFile { path: format!("/work/{}", rel), rel_path: rel.to_string() })
}

fn job(position: usize, name: &str) -> Job {
    Job {
        formatter: position,
        formatter_name: name.to_string(),
        invocation: Invocation {
            program: name.to_string(),
            args: Vec::new(),
            working_dir: "/work".to_string(),
            env: Vec::new(),
        },
    }
}

fn outcome(name: &str, result: Result<(), Error>) -> RunOutcome {
    RunOutcome { formatter_name: name.to_string(), result }
}

#[test]
fn run_without_matching_files_starts_no_process_and_succeeds() {
    let project = build(vec![("a", tool("true", &["*.a"])), ("b", tool("false", &["*.b"]))]);
    let dispatch = project.run(Platform::Posix, &vec![found("x.c"), found("y.d")]);
    assert!(dispatch.next().is_none());
    assert!(dispatch.is_done());
    assert!(dispatch.succeeded());
    assert!(dispatch.outcomes().is_empty());
    assert_eq!(dispatch.diagnostics().len(), 2);
}

#[test]
fn run_over_empty_tree_succeeds() {
    let project = build(vec![("a", tool("true", &["**/*"]))]);
    let dispatch = project.run(Platform::Posix, &Vec::new());
    assert!(dispatch.next().is_none());
    assert!(dispatch.succeeded());
}

#[test]
fn formatter_without_files_is_skipped() {
    let project = build(vec![
        ("a", tool("first", &["*.a"])),
        ("b", tool("second", &["*.b"])),
        ("c", tool("third", &["*.c"])),
    ]);
    let mut dispatch = project.run(Platform::Posix, &vec![found("z.c"), found("y.a")]);
    let first = dispatch.next().expect("a has a file").clone();
    assert_eq!(first.formatter, 0);
    assert_eq!(first.invocation.program, "first");
    dispatch.record(Ok(Some(0)));
    let second = dispatch.next().expect("c has a file").clone();
    assert_eq!(second.formatter, 2);
    assert_eq!(second.formatter_name, "c");
    assert_eq!(second.invocation.program, "third");
    dispatch.record(Ok(Some(0)));
    assert!(dispatch.is_done());
    assert!(dispatch.succeeded());
    let names: Vec<&str> = dispatch.outcomes().iter().map(|o| o.formatter_name.as_str()).collect();
    assert_eq!(names, vec!["a", "c"]);
}

#[test]
fn every_job_is_handed_out_whatever_the_reports() {
    let reports: Vec<fn() -> Result<Option<i32>, std::io::Error>> = vec![
        || Ok(Some(0)),
        || Ok(Some(3)),
        || Ok(None),
        || Err(std::io::Error::new(std::io::ErrorKind::NotFound, "missing")),
    ];
    for first in &reports {
        for second in &reports {
            let mut dispatch = Dispatch::new(vec![job(0, "one"), job(1, "two"), job(2, "three")], vec![]);
            assert_eq!(dispatch.next().map(|j| j.formatter), Some(0));
            dispatch.record(first());
            assert_eq!(dispatch.next().map(|j| j.formatter), Some(1));
            dispatch.record(second());
            assert_eq!(dispatch.next().map(|j| j.formatter), Some(2));
            dispatch.record(Ok(Some(0)));
            assert!(dispatch.next().is_none());
            let expected = matches!(first(), Ok(Some(0))) && matches!(second(), Ok(Some(0)));
            assert_eq!(dispatch.succeeded(), expected);
            assert_eq!(dispatch.outcomes().len(), 3);
        }
    }
}

#[test]
fn report_after_the_end_changes_nothing() {
    let mut dispatch = Dispatch::new(vec![job(0, "one")], vec![]);
    dispatch.record(Ok(Some(0)));
    assert!(dispatch.is_done());
    dispatch.record(Ok(Some(1)));
    assert!(dispatch.is_done());
    assert!(dispatch.succeeded());
    assert_eq!(dispatch.outcomes().len(), 1);
}

#[test]
fn process_that_did_not_start_fails_the_run_with_its_cause() {
    let mut dispatch = Dispatch::new(vec![job(0, "one"), job(1, "two")], vec![]);
    dispatch.record(Err(std::io::Error::new(std::io::ErrorKind::NotFound, "no such program")));
    dispatch.record(Ok(Some(0)));
    assert!(dispatch.is_done());
    assert!(!dispatch.succeeded());
    let outcomes = dispatch.outcomes();
    assert!(matches!(&outcomes[0].result, Err(Error::ExecFailed(e)) if e.kind() == std::io::ErrorKind::NotFound));
    assert_eq!(
        outcomes[0].message(),
        Some("formatter one failed to run: no such program".to_string())
    );
    assert!(outcomes[1].succeeded());
}

#[test]
fn aggregate_is_the_conjunction_of_the_outcomes() {
    assert!(aggregate(&vec![]));
    assert!(aggregate(&vec![outcome("a", Ok(()))]));
    assert!(aggregate(&vec![outcome("a", Ok(())), outcome("b", Ok(()))]));
    assert!(!aggregate(&vec![outcome("a", Err(Error::ProgramFailed))]));
    assert!(!aggregate(&vec![outcome("a", Ok(())), outcome("b", Err(Error::ProgramFailed))]));
    assert!(!aggregate(&vec![outcome("a", Err(Error::ProgramFailed)), outcome("b", Ok(()))]));
}

#[test]
fn jobs_get_the_walk_paths_of_the_claimed_files_in_order() {
    let project = build(vec![("a", tool("fmt", &["**/*.a"]))]);
    let dispatch = project.run(
        Platform::Posix,
        &vec![found("2.a"), found("skip.b"), found("sub/1.a")],
    );
    let job = dispatch.next().expect("a has files");
    assert_eq!(job.invocation.args, vec!["/work/2.a".to_string(), "/work/sub/1.a".to_string()]);
    assert_eq!(job.invocation.working_dir, "/work");
}
