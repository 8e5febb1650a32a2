use runtime_finder::python::finder::Finder;
use runtime_finder::python::providers::conda::{CondaEnvironment, CondaProvider};
use runtime_finder::python::providers::path::PathProvider;
use runtime_finder::python::providers::rye::{RyeProvider, Toolchain};
use runtime_finder::python::providers::{
    all_providers, find_pythons_from_path, get_provider, join_path, path_is_python,
    suffix_preference, DirEntry, Environment, Provider,
};
use runtime_finder::python::python::Lazy;

fn text(s: &str) -> String {
    s.to_string()
}

fn file(path: &str) -> DirEntry {
    DirEntry { path: text(path), is_dir: false, is_symlink: false }
}

fn link(path: &str) -> DirEntry {
    DirEntry { path: text(path), is_dir: false, is_symlink: true }
}

fn dir(path: &str) -> DirEntry {
    DirEntry { path: text(path), is_dir: true, is_symlink: false }
}

fn environment(conda: Option<&str>, rye: Option<&str>, home: Option<&str>) -> Environment {
    Environment {
        path_entries: vec![text("/usr/local/bin"), text("/usr/bin")],
        conda_root: conda.map(text),
        rye_root: rye.map(text),
        home_dir: home.map(text),
    }
}

#[test]
fn paths_are_joined_with_one_separator() {
    assert_eq!(join_path("/home/u", ".rye"), "/home/u/.rye");
    assert_eq!(join_path("/home/u/", ".rye"), "/home/u/.rye");
    assert_eq!(join_path("C:\\Users\\u\\", ".rye"), "C:\\Users\\u\\.rye");
    assert_eq!(join_path("", "py"), "py");
    assert_eq!(join_path("/", "py"), "/py");
    assert_eq!(join_path("/a", "install/bin/python3"), "/a/install/bin/python3");
}

#[test]
fn interpreter_names_are_recognized() {
    for name in ["python", "python3", "python3.11", "python.exe", "python3.exe", "python3.11.exe", "python27"] {
        assert!(path_is_python(&format!("/usr/bin/{}", name)), "{}", name);
    }
    for name in [
        "python3.11.4",
        "python3.",
        "python.3",
        "python3-config",
        "pythonw",
        "Python",
        "pypy3",
        "ipython",
        "python3.11m",
        "python.exe.exe",
        "",
        "exe",
    ] {
        assert!(!path_is_python(&format!("/usr/bin/{}", name)), "{}", name);
    }
    assert!(path_is_python("python"));
    assert!(!path_is_python("/usr/bin/python/"));
    assert!(!path_is_python("/python3/bin/pip"));
}

#[test]
fn plain_names_are_least_specific() {
    assert_eq!(suffix_preference("/usr/bin/python"), 0);
    assert_eq!(suffix_preference("/usr/bin/python.exe"), 0);
    assert_eq!(suffix_preference("/usr/bin/python3"), 1);
    assert_eq!(suffix_preference("/usr/bin/python3.11"), 2);
    assert_eq!(suffix_preference("C:\\Py\\python3.11.exe"), 2);
    assert_eq!(suffix_preference("/usr/bin/pypy3"), 3);
    assert_eq!(suffix_preference("/usr/bin/python3.11.4"), 3);
}

#[test]
fn only_the_first_interpreter_of_a_directory_counts() {
    let listing = Some(vec![
        file("/usr/bin/pip"),
        link("/usr/bin/python3"),
        file("/usr/bin/python3.11"),
        file("/usr/bin/python"),
    ]);
    let found = find_pythons_from_path(&listing, false);
    assert_eq!(found.len(), 1);
    assert_eq!(found[0].executable, "/usr/bin/python3");
    assert!(found[0].is_symlink);
    assert_eq!(found[0].interpreter, Lazy::Pending);
    assert_eq!(found[0].version, Lazy::Pending);
    assert_eq!(found[0].formatted_name, None);
    let found = find_pythons_from_path(&listing, true);
    assert_eq!(found.len(), 1);
    assert_eq!(found[0].interpreter, Lazy::Ready(text("/usr/bin/python3")));
}

#[test]
fn a_directory_without_interpreter_gives_nothing() {
    assert!(find_pythons_from_path(&Some(vec![file("/usr/bin/pip"), dir("/usr/bin/x")]), false)
        .is_empty());
    assert!(find_pythons_from_path(&Some(Vec::new()), false).is_empty());
    assert!(find_pythons_from_path(&None, true).is_empty());
}

#[test]
fn path_provider_goes_through_every_directory() {
    let provider = PathProvider::create(&environment(None, None, None)).unwrap();
    assert_eq!(provider.paths, vec!["/usr/local/bin", "/usr/bin"]);
    let found = provider.find_pythons(&vec![
        Some(vec![file("/usr/local/bin/python3.12"), file("/usr/local/bin/python3")]),
        None,
        Some(vec![file("/usr/bin/ls")]),
        Some(vec![file("/opt/bin/python")]),
    ]);
    let paths: Vec<&str> = found.iter().map(|p| p.executable.as_str()).collect();
    assert_eq!(paths, vec!["/usr/local/bin/python3.12", "/opt/bin/python"]);
    assert_eq!(found[0].interpreter, Lazy::Pending);
    assert!(provider.find_pythons(&Vec::new()).is_empty());
    assert_eq!(PathProvider::new(Vec::new()).paths, Vec::<String>::new());
}

#[test]
fn conda_provider_needs_a_home() {
    assert_eq!(CondaProvider::create(&environment(None, None, None)), None);
    assert_eq!(CondaProvider::create(&environment(Some("/opt/conda/envs"), None, None)), None);
    assert_eq!(
        CondaProvider::create(&environment(None, None, Some("/home/u"))).unwrap().roots,
        vec![
            "/home/u/.conda/envs",
            "/home/u/miniconda3/envs",
            "/home/u/anaconda3/envs",
            "/home/u/conda/envs",
        ]
    );
    assert_eq!(
        CondaProvider::create(&environment(Some("/opt/conda/envs"), None, Some("/home/u")))
            .unwrap()
            .roots,
        vec![
            "/opt/conda/envs",
            "/home/u/miniconda3/envs",
            "/home/u/anaconda3/envs",
            "/home/u/conda/envs",
        ]
    );
    assert_eq!(CondaProvider::new(vec![text("/r")]).roots, vec!["/r"]);
}

#[test]
fn conda_environments_are_the_directories_of_a_root() {
    let found = CondaProvider::environments(&Some(vec![
        dir("/home/u/.conda/envs/ml"),
        file("/home/u/.conda/envs/notes.txt"),
        dir("/home/u/.conda/envs/web"),
    ]));
    assert_eq!(
        found,
        vec![
            CondaEnvironment {
                name: text("ml"),
                bin: text("/home/u/.conda/envs/ml/bin"),
                listing: None,
            },
            CondaEnvironment {
                name: text("web"),
                bin: text("/home/u/.conda/envs/web/bin"),
                listing: None,
            },
        ]
    );
    assert!(CondaProvider::environments(&None).is_empty());
    assert!(CondaProvider::environments(&Some(Vec::new())).is_empty());
}

#[test]
fn conda_candidates_go_by_the_name_of_their_environment() {
    let provider = CondaProvider::new(vec![text("/home/u/.conda/envs")]);
    let found = provider.find_pythons(&vec![
        CondaEnvironment {
            name: text("ml"),
            bin: text("/e/ml/bin"),
            listing: Some(vec![file("/e/ml/bin/pip"), file("/e/ml/bin/python3.10"), file("/e/ml/bin/python")]),
        },
        CondaEnvironment { name: text("broken"), bin: text("/e/broken/bin"), listing: None },
        CondaEnvironment {
            name: text("empty"),
            bin: text("/e/empty/bin"),
            listing: Some(vec![file("/e/empty/bin/pip")]),
        },
        CondaEnvironment {
            name: text("web"),
            bin: text("/e/web/bin"),
            listing: Some(vec![link("/e/web/bin/python")]),
        },
    ]);
    assert_eq!(found.len(), 2);
    assert_eq!(found[0].executable, "/e/ml/bin/python3.10");
    assert_eq!(found[0].formatted_name, Some(text("Conda 'ml'")));
    assert_eq!(found[0].interpreter, Lazy::Ready(text("/e/ml/bin/python3.10")));
    assert_eq!(found[1].executable, "/e/web/bin/python");
    assert_eq!(found[1].formatted_name, Some(text("Conda 'web'")));
    assert!(found[1].is_symlink);
}

#[test]
fn rye_provider_needs_a_root_or_a_home() {
    assert_eq!(RyeProvider::create(&environment(None, None, None)), None);
    assert_eq!(
        RyeProvider::create(&environment(None, Some("/opt/rye"), None)).unwrap().root,
        "/opt/rye"
    );
    assert_eq!(
        RyeProvider::create(&environment(None, None, Some("/home/u"))).unwrap().root,
        "/home/u/.rye"
    );
    assert_eq!(
        RyeProvider::create(&environment(None, Some("/opt/rye"), Some("/home/u"))).unwrap().root,
        "/opt/rye"
    );
    assert_eq!(RyeProvider::new(text("/opt/rye")).py_root(), "/opt/rye/py");
}

#[test]
fn rye_toolchains_are_the_entries_that_are_no_links() {
    let found = RyeProvider::toolchains(&Some(vec![
        dir("/r/py/cpython@3.12.1"),
        link("/r/py/cpython@3.12"),
        dir("/r/py/cpython@3.11.7"),
    ]));
    assert_eq!(
        found,
        vec![
            Toolchain { python: text("/r/py/cpython@3.12.1/install/bin/python3"), exists: false },
            Toolchain { python: text("/r/py/cpython@3.11.7/install/bin/python3"), exists: false },
        ]
    );
    assert!(RyeProvider::toolchains(&None).is_empty());
}

#[test]
fn rye_candidates_are_the_interpreters_that_exist() {
    let provider = RyeProvider::new(text("/r"));
    let found = provider.find_pythons(&vec![
        Toolchain { python: text("/r/py/a/install/bin/python3"), exists: true },
        Toolchain { python: text("/r/py/b/install/bin/python3"), exists: false },
        Toolchain { python: text("/r/py/c/install/bin/python3"), exists: true },
    ]);
    assert_eq!(found.len(), 2);
    assert_eq!(found[0].executable, "/r/py/a/install/bin/python3");
    assert_eq!(found[0].interpreter, Lazy::Ready(text("/r/py/a/install/bin/python3")));
    assert_eq!(found[0].formatted_name, None);
    assert_eq!(found[1].executable, "/r/py/c/install/bin/python3");
}

#[test]
fn providers_go_by_name() {
    assert_eq!(all_providers(), vec!["path", "conda", "rye"]);
    let env = environment(None, Some("/opt/rye"), Some("/home/u"));
    assert!(matches!(get_provider("path", &env), Some(Provider::Path(_))));
    assert!(matches!(get_provider("conda", &env), Some(Provider::Conda(_))));
    assert_eq!(get_provider("rye", &env), Some(Provider::Rye(RyeProvider::new(text("/opt/rye")))));
    assert_eq!(get_provider("pyenv", &env), None);
    assert_eq!(get_provider("", &env), None);
    assert_eq!(get_provider("Path", &env), None);
}

#[test]
fn provider_without_prerequisite_is_skipped() {
    let bare = environment(None, None, None);
    assert_eq!(get_provider("conda", &bare), None);
    assert_eq!(get_provider("rye", &bare), None);
    let finder = Finder::default().select_providers(&all_providers(), &bare);
    assert_eq!(finder.providers.len(), 1);
    assert!(matches!(finder.providers[0], Provider::Path(_)));

    let with_rye = environment(None, Some("/opt/rye"), None);
    let all = Finder::default().select_providers(&all_providers(), &with_rye);
    let without_conda =
        Finder::default().select_providers(&vec![text("path"), text("rye")], &with_rye);
    assert_eq!(all.providers, without_conda.providers);
    assert_eq!(all.providers.len(), 2);

    let full = environment(None, None, Some("/home/u"));
    let finder = Finder::default()
        .resolve_symlinks(true)
        .select_providers(&vec![text("rye"), text("nope"), text("path"), text("conda")], &full);
    assert_eq!(finder.providers.len(), 3);
    assert!(matches!(finder.providers[0], Provider::Rye(_)));
    assert!(matches!(finder.providers[1], Provider::Path(_)));
    assert!(matches!(finder.providers[2], Provider::Conda(_)));
    assert!(finder.resolve_symlinks);
}
