use forestry::config::{Config, FormatterConfig, GlobalConfig};
use forestry::glob::GlobError;
use forestry::ordered_map::OrderedMap;
use forestry::project::{chain_message, LoadError, Project};
use forestry::runner::Runner;
use forestry::util::{anchor, contains_separator, glob_set_from_iter};

fn texts(items: &[&str]) -> Vec<String> {
    items.iter().map(|s| s.to_string()).collect()
}

fn with_patterns(patterns: &[&str]) -> FormatterConfig {
    FormatterConfig {
        program: "true".to_string(),
        shell: false,
        args: Vec::new(),
        env: OrderedMap::new(),
        patterns: texts(patterns),
    }
}

#[test]
fn patterns_compile_into_one_set() {
    let set = glob_set_from_iter(&texts(&["*.rs", "src/lib.rs", "src/**/foo.rs"])).expect("valid");
    assert_eq!(set.len(), 3);
    assert_eq!(set.matches("src/bar/baz/foo.rs"), vec![0, 2]);
    assert!(set.is_match("src/lib.rs"));
    assert!(!set.is_match("Cargo.toml"));
}

#[test]
fn no_patterns_compile_to_a_set_that_matches_nothing() {
    let set = glob_set_from_iter(&Vec::new()).expect("nothing to refuse");
    assert!(set.is_empty());
    assert!(!set.is_match("a"));
    assert!(!set.is_match(""));
    assert!(!set.is_match("a/b/c.rs"));
}

#[test]
fn first_invalid_pattern_is_named() {
    let err = glob_set_from_iter(&texts(&["*.rs", "a[b", "c{d", "*.py"])).expect_err("a[b is invalid");
    assert_eq!(err.glob, Some("a[b".to_string()));
    assert!(!err.message.is_empty());
    let err = glob_set_from_iter(&texts(&["c{d", "a[b"])).expect_err("c{d is invalid");
    assert_eq!(err.glob, Some("c{d".to_string()));
}

#[test]
fn refusal_speaks_of_the_pattern_as_written() {
    let err = glob_set_from_iter(&texts(&["a[b"])).expect_err("a[b is invalid");
    assert_eq!(err.glob, Some("a[b".to_string()));
    assert!(err.message.contains("'a[b'"), "{}", err.message);
    assert!(!err.message.contains("**/"), "{}", err.message);
    let err = glob_set_from_iter(&texts(&["src/{a,b"])).expect_err("src/{a,b is invalid");
    assert_eq!(err.glob, Some("src/{a,b".to_string()));
    assert!(err.message.contains("'src/{a,b'"), "{}", err.message);
}

#[test]
fn invalid_pattern_fails_the_runner() {
    let err: GlobError =
        Runner::from_formatter("bad".to_string(), with_patterns(&["ok/**", "[z-a]"]))
            .expect_err("range is reversed");
    assert_eq!(err.glob, Some("[z-a]".to_string()));
}

#[test]
fn invalid_pattern_fails_the_whole_project() {
    let mut map = OrderedMap::new();
    map.insert("good".to_string(), with_patterns(&["**/*.rs"]));
    map.insert("bad".to_string(), with_patterns(&["*.md", "docs/{a,b"]));
    map.insert("worse".to_string(), with_patterns(&["["]));
    let config = Config { global: GlobalConfig::default(), formatters: map };
    let err = Project::load("/p".to_string(), config).expect_err("bad has an invalid pattern");
    match &err {
        LoadError::InvalidGlob(cause) => assert_eq!(cause.glob, Some("docs/{a,b".to_string())),
        other => panic!("unexpected error: {:?}", other),
    }
    assert_eq!(err.message(), "invalid glob pattern found");
    let cause = err.cause().expect("a glob error has a cause");
    assert!(cause.contains("docs/{a,b"));
}

#[test]
fn project_keeps_root_and_declaration_order() {
    let mut map = OrderedMap::new();
    map.insert("zeta".to_string(), with_patterns(&["*.z"]));
    map.insert("alpha".to_string(), with_patterns(&["*.a"]));
    map.insert("mid".to_string(), with_patterns(&[]));
    let config = Config { global: GlobalConfig::default(), formatters: map };
    let project = Project::load("/some/root".to_string(), config).expect("valid");
    assert_eq!(project.root_dir(), "/some/root");
    let names: Vec<&str> = project.runners().iter().map(|r| r.name()).collect();
    assert_eq!(names, vec!["zeta", "alpha", "mid"]);
}

#[test]
fn load_errors_in_words() {
    assert_eq!(LoadError::NoConfigFile.message(), "could not find the config file");
    assert_eq!(
        LoadError::CwdNotAccessible.message(),
        "failed to get the current working directory"
    );
    assert_eq!(LoadError::NoConfigFile.cause(), None);
    assert_eq!(LoadError::CwdNotAccessible.cause(), None);
    let glob = GlobError { glob: Some("[".to_string()), message: "unclosed".to_string() };
    assert_eq!(LoadError::InvalidGlob(glob.clone()).message(), "invalid glob pattern found");
    assert_eq!(LoadError::InvalidGlob(glob).cause(), Some("unclosed".to_string()));
}

#[test]
fn causes_are_chained_line_by_line() {
    assert_eq!(chain_message(&Vec::new()), "");
    assert_eq!(chain_message(&texts(&["failed to load project"])), "failed to load project");
    assert_eq!(
        chain_message(&texts(&[
            "failed to load project",
            "invalid glob pattern found",
            "error parsing glob '[': unclosed character class; missing ']'",
        ])),
        "failed to load project\ncause: invalid glob pattern found\ncause: error parsing glob '[': unclosed character class; missing ']'"
    );
}

#[test]
fn separator_is_found_wherever_it_stands() {
    assert!(!contains_separator(""));
    assert!(!contains_separator("*.rs"));
    assert!(!contains_separator("a\\b"));
    assert!(contains_separator("/"));
    assert!(contains_separator("/abs"));
    assert!(contains_separator("dir/"));
    assert!(contains_separator("a/b/c"));
    assert!(contains_separator("\u{e9}t\u{e9}/\u{fc}"));
    assert!(!contains_separator("\u{e9}t\u{e9}\u{fc}"));
}

#[test]
fn pattern_without_separator_is_anchored_anywhere() {
    assert_eq!(anchor("*.rs"), "**/*.rs");
    assert_eq!(anchor("Makefile"), "**/Makefile");
    assert_eq!(anchor(""), "");
    assert_eq!(anchor("*"), "**/*");
    assert_eq!(anchor("**"), "**/**");
    assert_eq!(anchor("src/*.rs"), "src/*.rs");
    assert_eq!(anchor("**/*.rs"), "**/*.rs");
    assert_eq!(anchor("/top"), "/top");
}
