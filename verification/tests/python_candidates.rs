use runtime_finder::python::finder::{Finder, MatchOptions};
use runtime_finder::python::python::{
    file_name_of, parse_version_output, run_python_script, Attribute, Failure, Lazy, Pep440,
    ProcessOutcome, PythonVersion, GET_VERSION_TIMEOUT,
};
use runtime_finder::python::{run, Version};
use runtime_finder::version::Version as Release;

fn text(s: &str) -> String {
    s.to_string()
}

fn chars(s: &str) -> Vec<char> {
    s.chars().collect()
}

fn release(components: &[u64], text_form: &str) -> Pep440 {
    Pep440 {
        version: Release {
            components: components.to_vec(),
            is_prerelease: false,
            is_development: false,
        },
        text: text(text_form),
    }
}

fn python(path: &str, components: &[u64], text_form: &str) -> PythonVersion {
    PythonVersion::new(text(path)).with_version(release(components, text_form))
}

fn paths(pythons: &[PythonVersion]) -> Vec<String> {
    pythons.iter().map(|p| p.executable.clone()).collect()
}

#[test]
fn version_spec_gives_numbers() {
    let o = MatchOptions::from_version("3").unwrap();
    assert_eq!(o, MatchOptions::default().major(3));
    let o = MatchOptions::from_version("3.11").unwrap();
    assert_eq!(o, MatchOptions::default().major(3).minor(11));
    let o = MatchOptions::from_version("3.11.4").unwrap();
    assert_eq!(o, MatchOptions::default().major(3).minor(11).patch(4));
    let o = MatchOptions::from_version("3.").unwrap();
    assert_eq!(o, MatchOptions::default().major(3));
}

#[test]
fn version_spec_gives_marks_and_architecture() {
    let o = MatchOptions::from_version("3.12.0rc1").unwrap();
    assert_eq!(o, MatchOptions::default().major(3).minor(12).patch(0).pre(true));
    let o = MatchOptions::from_version("3.12a").unwrap();
    assert_eq!(o, MatchOptions::default().major(3).minor(12).pre(true));
    let o = MatchOptions::from_version("3.8a1.dev2").unwrap();
    assert_eq!(o, MatchOptions::default().major(3).minor(8).pre(true).dev(true));
    let o = MatchOptions::from_version("3.8.dev1").unwrap();
    assert_eq!(o, MatchOptions::default().major(3).minor(8).pre(true));
    let o = MatchOptions::from_version("3.9-32").unwrap();
    assert_eq!(o, MatchOptions::default().major(3).minor(9).architecture("32bit"));
    let o = MatchOptions::from_version("3-64").unwrap();
    assert_eq!(o, MatchOptions::default().major(3).architecture("64bit"));
    let o = MatchOptions::from_version("3.9-16").unwrap();
    assert_eq!(o, MatchOptions::default().major(3).minor(9));
}

#[test]
fn what_is_no_version_spec_gives_none() {
    assert_eq!(MatchOptions::from_version("python3"), None);
    assert_eq!(MatchOptions::from_version(""), None);
    assert_eq!(MatchOptions::from_version(".3"), None);
    assert_eq!(MatchOptions::from_version("99999999999999999999999999"), None);
    assert_eq!(MatchOptions::from_version("3.99999999999999999999999999"), None);
}

#[test]
fn groups_give_a_query() {
    let some = |s: &str| Some(text(s));
    assert_eq!(
        MatchOptions::from_groups(&some("3"), &some("11"), &None, &None, &None, &None),
        Some(MatchOptions::default().major(3).minor(11))
    );
    assert_eq!(
        MatchOptions::from_groups(&some("3"), &None, &None, &some("rc"), &some("2"), &some("64")),
        Some(MatchOptions::default().major(3).pre(true).dev(true).architecture("64bit"))
    );
    assert_eq!(
        MatchOptions::from_groups(&None, &None, &None, &None, &None, &None),
        Some(MatchOptions::default())
    );
    assert_eq!(MatchOptions::from_groups(&some("x"), &None, &None, &None, &None, &None), None);
    assert_eq!(MatchOptions::from_groups(&some("3"), &some(""), &None, &None, &None, &None), None);
    assert_eq!(
        MatchOptions::from_groups(&some("3"), &None, &some("٣"), &None, &None, &None),
        None
    );
}

#[test]
fn version_spec_falls_back_to_a_name() {
    let base = MatchOptions::default().architecture("64bit");
    assert_eq!(
        base.clone().version_spec("pypy3"),
        MatchOptions::default().architecture("64bit").name("pypy3")
    );
    assert_eq!(base.version_spec("3.11"), MatchOptions::default().major(3).minor(11));
}

#[test]
fn builders_set_one_field_each() {
    let o = MatchOptions::default()
        .major(3)
        .minor(11)
        .patch(4)
        .pre(false)
        .dev(true)
        .name("python3")
        .architecture("64bit");
    assert_eq!(
        o,
        MatchOptions {
            major: Some(3),
            minor: Some(11),
            patch: Some(4),
            pre: Some(false),
            dev: Some(true),
            name: Some(text("python3")),
            architecture: Some(text("64bit")),
        }
    );
    assert_eq!(
        MatchOptions::default(),
        MatchOptions {
            major: None,
            minor: None,
            patch: None,
            pre: None,
            dev: None,
            name: None,
            architecture: None,
        }
    );
}

#[test]
fn script_outcomes_are_told_apart() {
    assert_eq!(run_python_script(ProcessOutcome::TimedOut), Err(Failure::TimedOut));
    let failed = ProcessOutcome::Exited { success: false, code: Some(2), stdout: b"3.11".to_vec() };
    assert_eq!(run_python_script(failed), Err(Failure::NonZeroExit(2)));
    let killed = ProcessOutcome::Exited { success: false, code: None, stdout: Vec::new() };
    assert_eq!(run_python_script(killed), Err(Failure::NonZeroExit(-1)));
    let binary = ProcessOutcome::Exited { success: true, code: Some(0), stdout: vec![0x33, 0xff] };
    assert_eq!(run_python_script(binary), Err(Failure::NotText));
    let fine =
        ProcessOutcome::Exited { success: true, code: Some(0), stdout: "3.11.4\n".into() };
    assert_eq!(run_python_script(fine), Ok(text("3.11.4\n")));
    let accents = ProcessOutcome::Exited { success: true, code: Some(0), stdout: "é".into() };
    assert_eq!(run_python_script(accents), Ok(text("é")));
    assert_eq!(GET_VERSION_TIMEOUT, 5);
}

#[test]
fn printed_version_is_parsed() {
    let v = parse_version_output("3.11.4\n").unwrap();
    assert_eq!(v.version.components, vec![3, 11, 4]);
    assert!(!v.version.is_prerelease);
    assert!(!v.version.is_development);
    assert_eq!(v.text, "3.11.4");
    let v = parse_version_output("  3.13.0rc2+\r\n").unwrap();
    assert_eq!(v.version.components, vec![3, 13, 0]);
    assert!(v.version.is_prerelease);
    assert_eq!(v.text, "3.13.0rc2");
    let v = parse_version_output("3.14.0.dev0").unwrap();
    assert!(v.version.is_development);
    assert!(!v.version.is_prerelease);
    let v = parse_version_output("3.12.1+local.build").unwrap();
    assert_eq!(v.text, "3.12.1");
    let v = parse_version_output("V3.7").unwrap();
    assert_eq!(v.text, "3.7");
    assert!(parse_version_output("").is_none());
    assert!(parse_version_output("Python 3.11").is_none());
    assert!(parse_version_output("+3.11").is_none());
}

#[test]
fn file_name_is_what_follows_the_last_separator() {
    assert_eq!(file_name_of(&chars("/usr/bin/python3")), chars("python3"));
    assert_eq!(file_name_of(&chars("C:\\Python311\\python.exe")), chars("python.exe"));
    assert_eq!(file_name_of(&chars("python")), chars("python"));
    assert_eq!(file_name_of(&chars("/usr/bin/")), chars(""));
    assert_eq!(file_name_of(&chars("")), chars(""));
}

#[test]
fn a_fresh_candidate_knows_its_path_only() {
    let p = PythonVersion::new(text("/usr/bin/python3"));
    assert_eq!(p.executable, "/usr/bin/python3");
    assert_eq!(p.formatted_name, None);
    assert_eq!(p.version, Lazy::Pending);
    assert_eq!(p.interpreter, Lazy::Pending);
    assert_eq!(p.architecture, Lazy::Pending);
    assert!(!p.keep_symlink);
    assert!(!p.is_symlink);
    assert!(!p.is_valid());
    assert_eq!(p.version(), None);
    assert_eq!(p.interpreter(), None);
    assert_eq!(p.architecture(), None);
    assert_eq!(p.content_hash(), None);
    assert_eq!(p.real_path(), "/usr/bin/python3");
    assert_eq!(p.to_string(), "python3 INVALID @ /usr/bin/python3");
}

#[test]
fn builders_fill_a_candidate() {
    let p = python("/usr/bin/python3", &[3, 11, 4], "3.11.4")
        .with_interpreter(text("/usr/bin/python3.11"))
        .with_architecture("64bit")
        .with_keep_symlink(true)
        .with_file_facts(true, Some(text("/usr/bin/python3.11")), Some(text("abc")));
    assert!(p.is_valid());
    assert_eq!(p.version().unwrap().text, "3.11.4");
    assert_eq!(p.interpreter(), Some(&text("/usr/bin/python3.11")));
    assert_eq!(p.architecture(), Some(&text("64bit")));
    assert_eq!(p.content_hash(), Some(&text("abc")));
    assert_eq!(p.real_path(), "/usr/bin/python3.11");
    assert!(p.keep_symlink);
    assert!(p.is_symlink);
    assert_eq!(p.to_string(), "python3 3.11.4 @ /usr/bin/python3");
    assert_eq!(p, PythonVersion::new(text("/usr/bin/python3")));
    assert_ne!(p, PythonVersion::new(text("/usr/bin/python")));
}

#[test]
fn an_attribute_is_learned_once() {
    let mut p = PythonVersion::new(text("/usr/bin/python3"));
    p.resolve_version(Ok(text("3.11.4\n")));
    assert_eq!(p.version().unwrap().text, "3.11.4");
    p.resolve_version(Ok(text("3.12.0\n")));
    assert_eq!(p.version().unwrap().text, "3.11.4");
    p.resolve_version(Err(Failure::TimedOut));
    assert_eq!(p.version().unwrap().text, "3.11.4");

    let mut q = PythonVersion::new(text("/usr/bin/python3"));
    q.resolve_version(Err(Failure::TimedOut));
    assert_eq!(q.version, Lazy::Failed(Failure::TimedOut));
    q.resolve_version(Ok(text("3.11.4\n")));
    assert_eq!(q.version, Lazy::Failed(Failure::TimedOut));
    assert!(!q.is_valid());

    let mut r = PythonVersion::new(text("/usr/bin/python3"));
    r.resolve_version(Ok(text("not a version")));
    assert_eq!(r.version, Lazy::Failed(Failure::Unparsable));
}

#[test]
fn each_attribute_fails_by_itself() {
    let mut p = PythonVersion::new(text("/usr/bin/python3"));
    p.resolve_architecture(Err(Failure::NonZeroExit(1)));
    p.resolve_interpreter(Ok(text(" /usr/bin/python3.11 \n")));
    p.resolve_version(Err(Failure::NotText));
    assert_eq!(p.architecture, Lazy::Failed(Failure::NonZeroExit(1)));
    assert_eq!(p.interpreter, Lazy::Ready(text("/usr/bin/python3.11")));
    assert_eq!(p.version, Lazy::Failed(Failure::NotText));
    p.resolve_architecture(Ok(text("64bit\n")));
    assert_eq!(p.architecture, Lazy::Failed(Failure::NonZeroExit(1)));
    let mut q = PythonVersion::new(text("/usr/bin/python3"));
    q.resolve_architecture(Ok(text("64bit\n")));
    assert_eq!(q.architecture(), Some(&text("64bit")));
    q.resolve_interpreter(Err(Failure::TimedOut));
    assert_eq!(q.interpreter, Lazy::Failed(Failure::TimedOut));
}

#[test]
fn a_query_that_asks_nothing_admits_everything() {
    let p = PythonVersion::new(text("/usr/bin/python3"));
    assert!(p.matches(&MatchOptions::default()));
    assert_eq!(p.pending(&MatchOptions::default()), None);
    let mut failed = PythonVersion::new(text("/usr/bin/python3"));
    failed.resolve_version(Err(Failure::TimedOut));
    assert!(failed.matches(&MatchOptions::default()));
    assert!(failed.matches(&MatchOptions::default().name("python3")));
}

#[test]
fn name_is_compared_with_the_file_name() {
    let p = PythonVersion::new(text("/usr/bin/python3"));
    assert!(p.matches(&MatchOptions::default().name("python3")));
    assert!(!p.matches(&MatchOptions::default().name("python")));
    assert!(!p.matches(&MatchOptions::default().name("/usr/bin/python3")));
    assert_eq!(p.pending(&MatchOptions::default().name("python").major(3)), None);
}

#[test]
fn architecture_is_asked_before_version() {
    let query = MatchOptions::default().architecture("64bit").major(3);
    let mut p = PythonVersion::new(text("/usr/bin/python3"));
    assert!(!p.matches(&query));
    assert_eq!(p.pending(&query), Some(Attribute::Architecture));
    p.resolve_architecture(Ok(text("64bit\n")));
    assert!(!p.matches(&query));
    assert_eq!(p.pending(&query), Some(Attribute::Version));
    p.resolve_version(Ok(text("3.11.4\n")));
    assert_eq!(p.pending(&query), None);
    assert!(p.matches(&query));

    let mut q = PythonVersion::new(text("/usr/bin/python3"));
    q.resolve_architecture(Ok(text("32bit\n")));
    assert_eq!(q.pending(&query), None);
    assert!(!q.matches(&query));

    let mut r = PythonVersion::new(text("/usr/bin/python3"));
    r.resolve_architecture(Err(Failure::TimedOut));
    assert_eq!(r.pending(&query), None);
    assert!(!r.matches(&query));
}

#[test]
fn version_fields_are_compared_one_by_one() {
    let p = python("/usr/bin/python3", &[3, 11, 4], "3.11.4");
    assert!(p.matches(&MatchOptions::default().major(3)));
    assert!(p.matches(&MatchOptions::default().major(3).minor(11)));
    assert!(p.matches(&MatchOptions::default().major(3).minor(11).patch(4)));
    assert!(p.matches(&MatchOptions::default().minor(11)));
    assert!(p.matches(&MatchOptions::default().pre(false).dev(false)));
    assert!(!p.matches(&MatchOptions::default().major(2)));
    assert!(!p.matches(&MatchOptions::default().major(3).minor(12)));
    assert!(!p.matches(&MatchOptions::default().patch(5)));
    assert!(!p.matches(&MatchOptions::default().pre(true)));
    assert!(!p.matches(&MatchOptions::default().dev(true)));
    let short = python("/usr/bin/python3", &[3], "3");
    assert!(short.matches(&MatchOptions::default().major(3)));
    assert!(!short.matches(&MatchOptions::default().minor(0)));
    assert!(!short.matches(&MatchOptions::default().patch(0)));
}

#[test]
fn unknown_version_fails_every_version_field() {
    let mut failed = PythonVersion::new(text("/usr/bin/python3"));
    failed.resolve_version(Ok(text("garbage")));
    let pending = PythonVersion::new(text("/usr/bin/python3"));
    for query in [
        MatchOptions::default().major(3),
        MatchOptions::default().minor(11),
        MatchOptions::default().patch(0),
        MatchOptions::default().pre(false),
        MatchOptions::default().dev(false),
    ] {
        assert!(!failed.matches(&query));
        assert_eq!(failed.pending(&query), None);
        assert!(!pending.matches(&query));
        assert_eq!(pending.pending(&query), Some(Attribute::Version));
    }
}

#[test]
fn marks_are_compared() {
    let mut p = PythonVersion::new(text("/usr/bin/python3"));
    p.resolve_version(Ok(text("3.13.0rc2\n")));
    assert!(p.matches(&MatchOptions::default().pre(true)));
    assert!(p.matches(&MatchOptions::default().pre(true).dev(false)));
    assert!(!p.matches(&MatchOptions::default().pre(false)));
    let mut d = PythonVersion::new(text("/usr/bin/python3"));
    d.resolve_version(Ok(text("3.14.0.dev1\n")));
    assert!(d.matches(&MatchOptions::default().dev(true)));
    assert!(!d.matches(&MatchOptions::default().dev(false)));
}

#[test]
fn finder_starts_plain_and_takes_switches() {
    let f = Finder::default();
    assert!(f.providers.is_empty());
    assert!(!f.resolve_symlinks);
    assert!(f.same_file);
    assert!(f.same_interpreter);
    let f = f.resolve_symlinks(true).same_file(false).same_interpreter(false);
    assert!(f.resolve_symlinks);
    assert!(!f.same_file);
    assert!(!f.same_interpreter);
}

#[test]
fn identity_follows_the_switches() {
    let p = python("/usr/bin/python3", &[3, 11], "3.11")
        .with_interpreter(text("/opt/py/bin/python3.11"))
        .with_file_facts(true, Some(text("/usr/bin/python3.11")), Some(text("abc")));
    assert_eq!(Finder::default().deduplicate_key(&p), Some(text("/usr/bin/python3")));
    assert_eq!(
        Finder::default().resolve_symlinks(true).deduplicate_key(&p),
        Some(text("/usr/bin/python3.11"))
    );
    let kept = p.clone().with_keep_symlink(true);
    assert_eq!(
        Finder::default().resolve_symlinks(true).deduplicate_key(&kept),
        Some(text("/usr/bin/python3"))
    );
    assert_eq!(Finder::default().same_file(false).deduplicate_key(&p), Some(text("abc")));
    assert_eq!(
        Finder::default().same_file(false).same_interpreter(false).deduplicate_key(&p),
        Some(text("/opt/py/bin/python3.11"))
    );
    let bare = PythonVersion::new(text("/usr/bin/python3"));
    assert_eq!(Finder::default().same_file(false).deduplicate_key(&bare), None);
    assert_eq!(Finder::default().same_interpreter(false).deduplicate_key(&bare), None);
    assert_eq!(
        Finder::default().resolve_symlinks(true).deduplicate_key(&bare),
        Some(text("/usr/bin/python3"))
    );
}

#[test]
fn finder_says_what_ranking_wants() {
    let bare = PythonVersion::new(text("/usr/bin/python3"));
    assert_eq!(Finder::default().pending(&bare), Some(Attribute::Version));
    assert_eq!(
        Finder::default().same_interpreter(false).pending(&bare),
        Some(Attribute::Interpreter)
    );
    let known = python("/usr/bin/python3", &[3], "3");
    assert_eq!(Finder::default().pending(&known), None);
    assert_eq!(
        Finder::default().same_interpreter(false).pending(&known),
        Some(Attribute::Interpreter)
    );
    let both = known.with_interpreter(text("/usr/bin/python3"));
    assert_eq!(Finder::default().same_interpreter(false).pending(&both), None);
}

#[test]
fn duplicates_by_path_collapse() {
    let out = Finder::default().deduplicate(vec![
        python("/usr/bin/python3", &[3, 11], "3.11"),
        python("/usr/local/bin/python3", &[3, 12], "3.12"),
        python("/usr/bin/python3", &[3, 11], "3.11"),
    ]);
    assert_eq!(paths(&out), vec!["/usr/local/bin/python3", "/usr/bin/python3"]);
}

#[test]
fn duplicates_by_real_path_keep_the_best_representative() {
    let finder = Finder::default().resolve_symlinks(true);
    let real = Some(text("/usr/bin/python3.11"));
    let out = finder.deduplicate(vec![
        python("/usr/bin/python3", &[3, 11], "3.11").with_file_facts(true, real.clone(), None),
        python("/usr/bin/python3.11", &[3, 11], "3.11").with_file_facts(false, real.clone(), None),
        python("/usr/bin/python", &[3, 11], "3.11").with_file_facts(true, real.clone(), None),
    ]);
    assert_eq!(paths(&out), vec!["/usr/bin/python3.11"]);
    let out = finder.deduplicate(vec![
        python("/usr/bin/python3.11", &[3, 11], "3.11").with_file_facts(true, real.clone(), None),
        python("/usr/bin/python3", &[3, 11], "3.11").with_file_facts(true, real.clone(), None),
        python("/usr/bin/python", &[3, 11], "3.11").with_file_facts(true, real.clone(), None),
        python("/opt/python", &[3, 11], "3.11").with_file_facts(true, real.clone(), None),
    ]);
    assert_eq!(paths(&out), vec!["/usr/bin/python"]);
}

#[test]
fn duplicates_by_fingerprint_or_interpreter_collapse() {
    let a = python("/a/python3", &[3, 11], "3.11")
        .with_interpreter(text("/x/python3.11"))
        .with_file_facts(false, None, Some(text("h1")));
    let b = python("/b/python3", &[3, 11], "3.11")
        .with_interpreter(text("/x/python3.11"))
        .with_file_facts(false, None, Some(text("h2")));
    let c = python("/c/c/python3", &[3, 11], "3.11")
        .with_interpreter(text("/y/python3.11"))
        .with_file_facts(false, None, Some(text("h1")));
    let all = vec![a, b, c];
    assert_eq!(Finder::default().deduplicate(all.clone()).len(), 3);
    assert_eq!(
        paths(&Finder::default().same_file(false).deduplicate(all.clone())),
        vec!["/c/c/python3", "/b/python3"]
    );
    assert_eq!(
        paths(&Finder::default().same_interpreter(false).deduplicate(all.clone())),
        vec!["/c/c/python3", "/a/python3"]
    );
    let unknown = PythonVersion::new(text("/d/python3"));
    assert_eq!(
        paths(&Finder::default().same_file(false).deduplicate(vec![unknown, all[1].clone()])),
        vec!["/b/python3"]
    );
}

#[test]
fn candidates_rank_by_version_then_path_length() {
    let out = Finder::default().deduplicate(vec![
        python("/a/python3", &[3, 9], "3.9"),
        PythonVersion::new(text("/unknown/python3")),
        python("/bb/python3", &[3, 12, 1], "3.12.1"),
        python("/c/python3", &[3, 12, 1], "3.12.1"),
        python("/dddd/python3", &[3, 12], "3.12"),
        python("/e/python3", &[2, 7, 18], "2.7.18"),
    ]);
    assert_eq!(
        paths(&out),
        vec![
            "/bb/python3",
            "/c/python3",
            "/dddd/python3",
            "/a/python3",
            "/e/python3",
            "/unknown/python3",
        ]
    );
}

#[test]
fn deduplication_run_twice_gives_the_same() {
    let real = Some(text("/usr/bin/python3.11"));
    let input = vec![
        python("/usr/bin/python3", &[3, 11], "3.11").with_file_facts(true, real.clone(), None),
        python("/opt/a/python", &[3, 12], "3.12"),
        python("/usr/bin/python3.11", &[3, 11], "3.11").with_file_facts(false, real.clone(), None),
        python("/opt/b/python", &[3, 12], "3.12"),
        PythonVersion::new(text("/opt/c/python")),
        python("/opt/long/python", &[3, 12], "3.12"),
    ];
    for finder in [Finder::default(), Finder::default().resolve_symlinks(true)] {
        let once = finder.deduplicate(input.clone());
        let twice = finder.deduplicate(once.clone());
        assert_eq!(paths(&once), paths(&twice));
    }
    let once = Finder::default().resolve_symlinks(true).deduplicate(input);
    assert_eq!(
        paths(&once),
        vec!["/opt/long/python", "/opt/a/python", "/opt/b/python", "/usr/bin/python3.11", "/opt/c/python"]
    );
}

#[test]
fn find_all_filters_then_ranks() {
    let candidates = vec![
        python("/a/python3", &[3, 9], "3.9"),
        python("/b/python3", &[3, 12], "3.12"),
        python("/c/python2", &[2, 7], "2.7"),
        PythonVersion::new(text("/d/python3")),
    ];
    let finder = Finder::default();
    let query = MatchOptions::default().major(3);
    assert_eq!(paths(&finder.find_all(&query, candidates.clone())), vec!["/b/python3", "/a/python3"]);
    assert_eq!(finder.find(&query, candidates.clone()).unwrap().executable, "/b/python3");
    let none = MatchOptions::default().major(4);
    assert!(finder.find_all(&none, candidates.clone()).is_empty());
    assert_eq!(finder.find(&none, candidates.clone()), None);
    let by_name = MatchOptions::default().name("python3");
    assert_eq!(
        paths(&finder.find_all(&by_name, candidates)),
        vec!["/b/python3", "/a/python3", "/d/python3"]
    );
}

#[test]
fn gathering_keeps_the_order_of_the_providers() {
    let all = Finder::default().find_all_python_versions(vec![
        vec![PythonVersion::new(text("/a")), PythonVersion::new(text("/b"))],
        Vec::new(),
        vec![PythonVersion::new(text("/c"))],
    ]);
    assert_eq!(paths(&all), vec!["/a", "/b", "/c"]);
    let without = Finder::default().find_all_python_versions(vec![
        vec![PythonVersion::new(text("/a")), PythonVersion::new(text("/b"))],
        vec![PythonVersion::new(text("/c"))],
    ]);
    assert_eq!(paths(&all), paths(&without));
}

#[test]
fn run_reports_what_was_found() {
    let mut named = python("/opt/conda/envs/ml/bin/python", &[3, 10, 2], "3.10.2");
    named.formatted_name = Some(text("Conda 'ml'"));
    let out = run(
        MatchOptions::default().name("python"),
        vec![
            named,
            python("/usr/bin/python3", &[3, 12], "3.12"),
            PythonVersion::new(text("/usr/bin/python")),
            python("/usr/local/bin/python", &[3, 12, 4], "3.12.4"),
        ],
    );
    assert_eq!(
        out,
        vec![
            Version {
                executable: text("/usr/local/bin/python"),
                formatted_name: None,
                version: Some(text("3.12.4")),
            },
            Version {
                executable: text("/opt/conda/envs/ml/bin/python"),
                formatted_name: Some(text("Conda 'ml'")),
                version: Some(text("3.10.2")),
            },
            Version { executable: text("/usr/bin/python"), formatted_name: None, version: None },
        ]
    );
}
