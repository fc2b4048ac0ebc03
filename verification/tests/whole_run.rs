use forestry::classify::{CandidateFile, Diagnostic, WalkEntry};
use forestry::config::{Config, FormatterConfig, GlobalConfig};
use forestry::ordered_map::OrderedMap;
use forestry::project::{LoadError, Project};
use forestry::runner::{Error, Invocation, Platform};

fn formatter(program: &str, shell: bool, patterns: &[&str]) -> FormatterConfig {
    FormatterConfig {
        program: program.to_string(),
        shell,
        args: Vec::new(),
        env: OrderedMap::new(),
        patterns: patterns.iter().map(|p| p.to_string()).collect(),
    }
}

fn project(formatters: Vec<(&str, FormatterConfig)>) -> Project {
    let mut map = OrderedMap::new();
    for (name, fmt) in formatters {
        map.insert(name.to_string(), fmt);
    }
    let config = Config { global: GlobalConfig::default(), formatters: map };
    Project::load("/proj".to_string(), config).expect("patterns are valid")
}

fn file(rel: &str) -> WalkEntry {
    WalkEntry::File(CandidateFile { path: format!("/proj/{}", rel), rel_path: rel.to_string() })
}

fn plain(rel: &str) -> CandidateFile {
    CandidateFile { path: format!("/proj/{}", rel), rel_path: rel.to_string() }
}

#[test]
fn single_formatter_claims_its_files_and_leaves_the_rest() {
    let project = project(vec![("py", formatter("true", false, &["**/*.py"]))]);
    let entries = vec![file("a.py"), file("b.txt")];

    let classification = project.match_runners(&entries);
    assert_eq!(classification.partitions, vec![vec![plain("a.py")]]);
    assert_eq!(
        classification.diagnostics,
        vec![Diagnostic::Unmatched { file: "b.txt".to_string() }]
    );
    assert_eq!(classification.diagnostics[0].message(), "file b.txt is not matched by any runner");

    let mut dispatch = project.run(Platform::Posix, &entries);
    let job = dispatch.next().expect("py has a file").clone();
    assert_eq!(job.formatter, 0);
    assert_eq!(job.formatter_name, "py");
    assert_eq!(
        job.invocation,
        Invocation {
            program: "true".to_string(),
            args: vec!["/proj/a.py".to_string()],
            working_dir: "/proj".to_string(),
            env: Vec::new(),
        }
    );
    dispatch.record(Ok(Some(0)));
    assert!(dispatch.next().is_none());
    assert!(dispatch.is_done());
    assert!(dispatch.succeeded());
    assert_eq!(dispatch.outcomes().len(), 1);
    assert_eq!(
        dispatch.diagnostics(),
        &vec![Diagnostic::Unmatched { file: "b.txt".to_string() }]
    );
}

#[test]
fn conflicting_file_goes_to_the_first_declared_formatter() {
    let project = project(vec![
        ("alpha", formatter("true", false, &["**/*.txt"])),
        ("beta", formatter("true", false, &["**/*.txt"])),
    ]);
    let entries = vec![file("c.txt")];

    let classification = project.match_runners(&entries);
    assert_eq!(classification.partitions, vec![vec![plain("c.txt")], vec![]]);
    assert_eq!(
        classification.diagnostics,
        vec![Diagnostic::Conflict {
            file: "c.txt".to_string(),
            chosen: "alpha".to_string(),
            discarded: vec!["beta".to_string()],
        }]
    );

    let mut dispatch = project.run(Platform::Posix, &entries);
    let job = dispatch.next().expect("alpha has a file").clone();
    assert_eq!(job.formatter_name, "alpha");
    assert_eq!(job.invocation.args, vec!["/proj/c.txt".to_string()]);
    dispatch.record(Ok(Some(0)));
    assert!(dispatch.next().is_none());
    assert!(dispatch.succeeded());
    assert_eq!(dispatch.outcomes().len(), 1);
    assert_eq!(dispatch.outcomes()[0].formatter_name, "alpha");
}

#[test]
fn failing_formatter_does_not_stop_the_next_and_fails_the_run() {
    let project = project(vec![
        ("fail", formatter("false", false, &["**/*.md"])),
        ("ok", formatter("true", false, &["**/*.go"])),
    ]);
    let entries = vec![file("x.md"), file("y.go")];

    let mut dispatch = project.run(Platform::Posix, &entries);
    assert!(dispatch.diagnostics().is_empty());

    let first = dispatch.next().expect("fail has a file").clone();
    assert_eq!(first.formatter_name, "fail");
    assert_eq!(first.invocation.program, "false");
    assert_eq!(first.invocation.args, vec!["/proj/x.md".to_string()]);
    dispatch.record(Ok(Some(1)));
    assert!(!dispatch.is_done());
    assert!(!dispatch.succeeded());

    let second = dispatch.next().expect("ok is still to run").clone();
    assert_eq!(second.formatter_name, "ok");
    assert_eq!(second.invocation.program, "true");
    assert_eq!(second.invocation.args, vec!["/proj/y.go".to_string()]);
    dispatch.record(Ok(Some(0)));

    assert!(dispatch.is_done());
    assert!(dispatch.next().is_none());
    assert!(!dispatch.succeeded());
    let outcomes = dispatch.outcomes();
    assert_eq!(outcomes.len(), 2);
    assert!(matches!(outcomes[0].result, Err(Error::ProgramFailed)));
    assert!(outcomes[1].result.is_ok());
    assert_eq!(
        outcomes[0].message(),
        Some(
            "formatter fail failed to run: executed program did not exit successfully".to_string()
        )
    );
    assert_eq!(outcomes[1].message(), None);
}

#[test]
fn shell_formatter_is_handed_to_the_posix_interpreter() {
    let project = project(vec![("shell", formatter("echo $FILE", true, &["**/*"]))]);
    let entries = vec![file("a"), file("dir/b.rs")];

    let dispatch = project.run(Platform::Posix, &entries);
    let job = dispatch.next().expect("every file matches");
    assert_eq!(job.invocation.program, "sh");
    assert_eq!(
        job.invocation.args,
        vec![
            "-c".to_string(),
            "echo $FILE".to_string(),
            "/proj/a".to_string(),
            "/proj/dir/b.rs".to_string(),
        ]
    );
    assert_eq!(job.invocation.working_dir, "/proj");
}

#[test]
fn explicit_root_without_config_file_is_fatal() {
    let res = Project::find_config(Some("/no-such-dir-for-forestry-tests".to_string()), None);
    assert_eq!(res, Err(LoadError::NoConfigFile));
    assert_eq!(LoadError::NoConfigFile.message(), "could not find the config file");
}
