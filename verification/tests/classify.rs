use forestry::classify::{list, CandidateFile, Diagnostic, WalkEntry};
use forestry::config::{Config, FormatterConfig, GlobalConfig};
use forestry::ordered_map::OrderedMap;
use forestry::project::Project;

fn rule(patterns: &[&str]) -> FormatterConfig {
    FormatterConfig {
        program: "true".to_string(),
        shell: false,
        args: Vec::new(),
        env: OrderedMap::new(),
        patterns: patterns.iter().map(|p| p.to_string()).collect(),
    }
}

fn load(formatters: Vec<(&str, FormatterConfig)>) -> Project {
    let mut map = OrderedMap::new();
    for (name, fmt) in formatters {
        map.insert(name.to_string(), fmt);
    }
    let config = Config { global: GlobalConfig::default(), formatters: map };
    Project::load("/root".to_string(), config).expect("patterns are valid")
}

fn entry(rel: &str) -> WalkEntry {
    WalkEntry::File(candidate(rel))
}

fn candidate(rel: &str) -> CandidateFile {
    CandidateFile { path: format!("/root/{}", rel), rel_path: rel.to_string() }
}

fn three_rules() -> Project {
    load(vec![
        ("rust", rule(&["**/*.rs"])),
        ("src", rule(&["src/**"])),
        ("docs", rule(&["**/*.md", "docs/**"])),
    ])
}

#[test]
fn matching_lists_accepting_runners_in_declaration_order() {
    let project = three_rules();
    assert_eq!(project.matching("src/main.rs"), vec![0, 1]);
    assert_eq!(project.matching("docs/guide.md"), vec![2]);
    assert_eq!(project.matching("docs/example.rs"), vec![0, 2]);
    assert_eq!(project.matching("src/notes.md"), vec![1, 2]);
    assert_eq!(project.matching("Makefile"), Vec::<usize>::new());
}

#[test]
fn no_path_is_in_two_partitions() {
    let project = three_rules();
    let entries = vec![
        entry("src/main.rs"),
        entry("README.md"),
        entry("src/notes.md"),
        entry("docs/example.rs"),
        entry("docs/guide.md"),
        entry("Makefile"),
        entry("src/data.bin"),
    ];
    let res = project.match_runners(&entries);
    assert_eq!(res.partitions.len(), 3);
    for (i, first) in res.partitions.iter().enumerate() {
        for (j, second) in res.partitions.iter().enumerate() {
            if i != j {
                for a in first {
                    for b in second {
                        assert_ne!(a.rel_path, b.rel_path);
                    }
                }
            }
        }
    }
    assert_eq!(res.partitions[0], vec![candidate("src/main.rs"), candidate("docs/example.rs")]);
    assert_eq!(res.partitions[1], vec![candidate("src/notes.md"), candidate("src/data.bin")]);
    assert_eq!(res.partitions[2], vec![candidate("README.md"), candidate("docs/guide.md")]);
}

#[test]
fn file_with_one_match_is_assigned_without_a_diagnostic() {
    let project = three_rules();
    let res = project.match_runners(&vec![entry("docs/guide.md")]);
    assert_eq!(res.partitions, vec![vec![], vec![], vec![candidate("docs/guide.md")]]);
    assert!(res.diagnostics.is_empty());
}

#[test]
fn file_without_match_is_reported_once_and_left_out() {
    let project = three_rules();
    let res = project.match_runners(&vec![entry("Makefile"), entry("src/lib.rs")]);
    assert_eq!(res.partitions[0], vec![candidate("src/lib.rs")]);
    assert!(res.partitions[1].is_empty());
    assert!(res.partitions[2].is_empty());
    let unmatched: Vec<&Diagnostic> = res
        .diagnostics
        .iter()
        .filter(|d| matches!(d, Diagnostic::Unmatched { file } if file == "Makefile"))
        .collect();
    assert_eq!(unmatched.len(), 1);
}

#[test]
fn conflict_names_every_discarded_runner_in_order() {
    let project = load(vec![
        ("one", rule(&["*.x"])),
        ("two", rule(&["nothing"])),
        ("three", rule(&["a.*"])),
        ("four", rule(&["**/*"])),
    ]);
    let res = project.match_runners(&vec![entry("a.x")]);
    assert_eq!(res.partitions, vec![vec![candidate("a.x")], vec![], vec![], vec![]]);
    assert_eq!(
        res.diagnostics,
        vec![Diagnostic::Conflict {
            file: "a.x".to_string(),
            chosen: "one".to_string(),
            discarded: vec!["three".to_string(), "four".to_string()],
        }]
    );
    assert_eq!(
        res.diagnostics[0].message(),
        "file a.x is already matched by runner one, using only the first; discarded: three, four"
    );
}

#[test]
fn later_runner_gets_the_file_when_earlier_ones_do_not_match() {
    let project = load(vec![("one", rule(&["*.x"])), ("two", rule(&["*.y"]))]);
    let res = project.match_runners(&vec![entry("b.y"), entry("a.x")]);
    assert_eq!(res.partitions, vec![vec![candidate("a.x")], vec![candidate("b.y")]]);
    assert!(res.diagnostics.is_empty());
}

#[test]
fn unreadable_entries_are_reported_and_directories_skipped() {
    let project = three_rules();
    let entries = vec![
        WalkEntry::Directory,
        WalkEntry::Failed("permission denied".to_string()),
        entry("src/main.rs"),
        WalkEntry::Directory,
    ];
    let res = project.match_runners(&entries);
    assert_eq!(res.partitions[0], vec![candidate("src/main.rs")]);
    assert_eq!(
        res.diagnostics,
        vec![
            Diagnostic::EntrySkipped { cause: "permission denied".to_string() },
            Diagnostic::Conflict {
                file: "src/main.rs".to_string(),
                chosen: "rust".to_string(),
                discarded: vec!["src".to_string()],
            },
        ]
    );
    assert_eq!(
        res.diagnostics[0].message(),
        "skipping directory entry, cause: permission denied"
    );
}

#[test]
fn partitions_keep_the_order_of_the_walk() {
    let project = load(vec![("all", rule(&["**/*"]))]);
    let entries = vec![entry("z"), entry("a"), entry("m/k"), entry("a")];
    let res = project.match_runners(&entries);
    assert_eq!(
        res.partitions,
        vec![vec![candidate("z"), candidate("a"), candidate("m/k"), candidate("a")]]
    );
}

#[test]
fn formatter_without_patterns_claims_nothing() {
    let project = load(vec![("none", rule(&[])), ("all", rule(&["**/*"]))]);
    let res = project.match_runners(&vec![entry("a.txt")]);
    assert_eq!(res.partitions, vec![vec![], vec![candidate("a.txt")]]);
    assert!(res.diagnostics.is_empty());
}

#[test]
fn project_without_formatters_reports_every_file() {
    let project = load(vec![]);
    let res = project.match_runners(&vec![entry("a"), entry("b")]);
    assert!(res.partitions.is_empty());
    assert_eq!(
        res.diagnostics,
        vec![
            Diagnostic::Unmatched { file: "a".to_string() },
            Diagnostic::Unmatched { file: "b".to_string() },
        ]
    );
}

#[test]
fn empty_walk_gives_empty_partitions() {
    let project = three_rules();
    let res = project.match_runners(&Vec::new());
    assert_eq!(res.partitions, vec![vec![], vec![], vec![]]);
    assert!(res.diagnostics.is_empty());
}

#[test]
fn names_are_listed_with_commas() {
    assert_eq!(list(&vec![]), "");
    assert_eq!(list(&vec!["a".to_string()]), "a");
    assert_eq!(list(&vec!["a".to_string(), "b".to_string(), "c".to_string()]), "a, b, c");
}
