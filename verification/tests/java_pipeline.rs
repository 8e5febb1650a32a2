use runtime_finder::java::host::{
    eq_ignore_ascii_case, get_operating_system, trim_string, unquote, HostReport, OperatingSystem,
};
use runtime_finder::java::{
    collate_jvms, compare_boosting_architecture, describe, filter_arch, filter_name, filter_ver,
    normalize_architecture, process_release_file, run, Installation, Jvm, MatchOptions,
};
use runtime_finder::properties::Properties;
use std::cmp::Ordering;

fn text(s: &str) -> String {
    s.to_string()
}

fn chars(s: &str) -> Vec<char> {
    s.chars().collect()
}

fn jvm(version: &str, architecture: &str, path: &str) -> Jvm {
    Jvm {
        version: text(version),
        name: text("jvm"),
        architecture: text(architecture),
        path: text(path),
    }
}

fn released(path: &str, label: &str, release: &str) -> Installation {
    Installation {
        path: text(path),
        label: Some(text(label)),
        release: Some(release.as_bytes().to_vec()),
    }
}

fn bare(path: &str, label: &str) -> Installation {
    Installation { path: text(path), label: Some(text(label)), release: None }
}

fn linux() -> HostReport {
    HostReport::Unix { uname: text("Linux x86_64\n"), os_release: Some(b"ID=ubuntu\n".to_vec()) }
}

fn host(architecture: &str) -> OperatingSystem {
    OperatingSystem { name: text("ubuntu"), architecture: text(architecture) }
}

fn no_query() -> MatchOptions {
    MatchOptions { name: None, arch: None, version: None }
}

#[test]
fn properties_are_read_by_key() {
    let p = Properties::parse(&b"JAVA_VERSION=\"17.0.2\"\n# note\nOS_ARCH = amd64\nEMPTY=\n".to_vec())
        .unwrap();
    assert_eq!(p.get("JAVA_VERSION"), Some(chars("\"17.0.2\"")));
    assert_eq!(p.get("OS_ARCH"), Some(chars("amd64")));
    assert_eq!(p.get("EMPTY"), Some(chars("")));
    assert_eq!(p.get("MISSING"), None);
    assert_eq!(p.get("note"), None);
}

#[test]
fn properties_last_value_of_a_key_counts() {
    let p = Properties::parse(&b"A=1\nA=2\n".to_vec()).unwrap();
    assert_eq!(p.get("A"), Some(chars("2")));
}

#[test]
fn properties_reject_a_broken_escape() {
    assert!(Properties::parse(&b"A=\\u12\n".to_vec()).is_none());
    assert!(Properties::parse(&Vec::new()).is_some());
}

#[test]
fn line_end_is_taken_off_once() {
    assert_eq!(trim_string("x86_64\n"), "x86_64");
    assert_eq!(trim_string("x86_64\r\n"), "x86_64");
    assert_eq!(trim_string("x86_64\n\n"), "x86_64\n");
    assert_eq!(trim_string("x86_64"), "x86_64");
    assert_eq!(trim_string("x86_64\r"), "x86_64\r");
    assert_eq!(trim_string("\n"), "");
    assert_eq!(trim_string(""), "");
}

#[test]
fn case_of_ascii_letters_is_ignored() {
    assert!(eq_ignore_ascii_case(&chars("LINUX"), "Linux"));
    assert!(eq_ignore_ascii_case(&chars("darwin"), "Darwin"));
    assert!(!eq_ignore_ascii_case(&chars("Linu"), "Linux"));
    assert!(!eq_ignore_ascii_case(&chars("Linuy"), "Linux"));
    assert!(!eq_ignore_ascii_case(&chars("@"), "`"));
    assert!(!eq_ignore_ascii_case(&chars("["), "{"));
}

#[test]
fn quotes_are_taken_out() {
    assert_eq!(unquote(&chars("\"17.0.2\"")), chars("17.0.2"));
    assert_eq!(unquote(&chars("ubuntu")), chars("ubuntu"));
}

#[test]
fn linux_host_is_made_out() {
    assert_eq!(
        get_operating_system(&linux()),
        Some(OperatingSystem { name: text("ubuntu"), architecture: text("x86_64") })
    );
    let quoted = HostReport::Unix {
        uname: text("Linux i686\n"),
        os_release: Some(b"NAME=\"Debian GNU/Linux\"\nID=\"debian\"\n".to_vec()),
    };
    assert_eq!(
        get_operating_system(&quoted),
        Some(OperatingSystem { name: text("debian"), architecture: text("x86") })
    );
    for (processor, architecture) in [
        ("x86_64", "x86_64"),
        ("i386", "x86"),
        ("i586", "x86"),
        ("I686", "x86"),
        ("aarch64", "aarch64"),
        ("arm64", "arm64"),
    ] {
        let report = HostReport::Unix {
            uname: format!("linux {}\n", processor),
            os_release: Some(b"VERSION=1\n".to_vec()),
        };
        assert_eq!(
            get_operating_system(&report),
            Some(OperatingSystem { name: text(""), architecture: text(architecture) })
        );
    }
}

#[test]
fn darwin_host_is_made_out() {
    let arm = HostReport::Unix { uname: text("Darwin arm\n"), os_release: None };
    assert_eq!(
        get_operating_system(&arm),
        Some(OperatingSystem { name: text("macOS"), architecture: text("aarch64") })
    );
    let intel = HostReport::Unix { uname: text("Darwin i386\n"), os_release: None };
    assert_eq!(
        get_operating_system(&intel),
        Some(OperatingSystem { name: text("macOS"), architecture: text("x86_64") })
    );
}

#[test]
fn windows_host_is_made_out() {
    for (processor, architecture) in [("AMD64", "x86_64"), ("x86", "x86"), ("ARM64", "arm64")] {
        let report = HostReport::Windows {
            product_name: text("Windows 11 Pro"),
            processor_architecture: text(processor),
        };
        assert_eq!(
            get_operating_system(&report),
            Some(OperatingSystem { name: text("Windows 11 Pro"), architecture: text(architecture) })
        );
    }
    let unknown = HostReport::Windows {
        product_name: text("Windows"),
        processor_architecture: text("IA64"),
    };
    assert_eq!(get_operating_system(&unknown), None);
}

#[test]
fn unknown_host_is_none() {
    for uname in ["", "Linux", "Linux unknown\n", "FreeBSD amd64\n", "Linux  x86_64\n"] {
        let report =
            HostReport::Unix { uname: text(uname), os_release: Some(b"ID=ubuntu\n".to_vec()) };
        assert_eq!(get_operating_system(&report), None);
    }
    let unread = HostReport::Unix { uname: text("Linux x86_64\n"), os_release: None };
    assert_eq!(get_operating_system(&unread), None);
    let broken =
        HostReport::Unix { uname: text("Linux x86_64\n"), os_release: Some(b"ID=\\u1\n".to_vec()) };
    assert_eq!(get_operating_system(&broken), None);
}

#[test]
fn architecture_names_are_normalized() {
    assert_eq!(normalize_architecture(&chars("amd64")), chars("x86_64"));
    assert_eq!(normalize_architecture(&chars("i386")), chars("x86"));
    assert_eq!(normalize_architecture(&chars("aarch64")), chars("aarch64"));
    assert_eq!(normalize_architecture(&chars("")), chars(""));
}

#[test]
fn release_file_describes_a_jvm() {
    let found = released(
        "/usr/lib/jvm/temurin-17",
        "temurin-17",
        "IMPLEMENTOR=\"Eclipse Adoptium\"\nJAVA_VERSION=\"17.0.2\"\nOS_ARCH=\"amd64\"\n",
    );
    assert_eq!(
        describe(&found),
        Some(Jvm {
            version: text("17.0.2"),
            name: text("temurin-17"),
            architecture: text("x86_64"),
            path: text("/usr/lib/jvm/temurin-17"),
        })
    );
}

#[test]
fn release_file_keys_have_fallbacks() {
    let found = released("/j", "j", "VERSION=17.0.2\nARCH=i386\n");
    let jvm = describe(&found).unwrap();
    assert_eq!(jvm.version, "17.0.2");
    assert_eq!(jvm.architecture, "x86");
    let both = released("/j", "j", "VERSION=1\nJAVA_VERSION=2\nARCH=a\nOS_ARCH=b\n");
    let jvm = describe(&both).unwrap();
    assert_eq!(jvm.version, "2");
    assert_eq!(jvm.architecture, "b");
    let neither = released("/j", "j", "X=1\n");
    let jvm = describe(&neither).unwrap();
    assert_eq!(jvm.version, "");
    assert_eq!(jvm.architecture, "");
}

#[test]
fn release_file_names_a_jvm_without_label() {
    let release = b"IMPLEMENTOR=\"Oracle Corporation\"\nJAVA_VERSION=\"1.8.0_292\"\nOS_ARCH=\"amd64\"\n"
        .to_vec();
    assert_eq!(
        process_release_file(&text("C:\\Java\\jdk8"), &release),
        Some(Jvm {
            version: text("1.8.0_292"),
            name: text("Oracle Corporation - 1.8.0_292"),
            architecture: text("x86_64"),
            path: text("C:\\Java\\jdk8"),
        })
    );
    assert_eq!(process_release_file(&text("/j"), &b"A=\\u1".to_vec()), None);
    let unlabelled =
        Installation { path: text("/j"), label: None, release: Some(b"JAVA_VERSION=9\n".to_vec()) };
    assert_eq!(describe(&unlabelled).unwrap().name, " - 9");
}

#[test]
fn directory_name_describes_a_jvm() {
    assert_eq!(
        describe(&bare("/usr/lib/jvm/java-8-openjdk-amd64", "java-8-openjdk-amd64")),
        Some(Jvm {
            version: text("8"),
            name: text("java-8-openjdk-amd64"),
            architecture: text("x86_64"),
            path: text("/usr/lib/jvm/java-8-openjdk-amd64"),
        })
    );
    assert_eq!(
        describe(&bare("/j", "java-1.11.0-openjdk-i386")).unwrap().architecture,
        "x86"
    );
    assert_eq!(describe(&bare("/j", "java-8-openjdk")), None);
    assert_eq!(describe(&bare("/j", "jdk-8-openjdk-amd64")), None);
    assert_eq!(describe(&bare("/j", "default-java")), None);
    assert_eq!(describe(&Installation { path: text("/j"), label: None, release: None }), None);
}

#[test]
fn unreadable_release_file_falls_back_to_the_name() {
    let found = released("/j", "java-11-openjdk-arm64", "JAVA_VERSION=\\u1\n");
    let jvm = describe(&found).unwrap();
    assert_eq!(jvm.version, "11");
    assert_eq!(jvm.architecture, "arm64");
    assert_eq!(describe(&released("/j", "jdk", "JAVA_VERSION=\\u1\n")), None);
}

#[test]
fn filters_pass_what_is_not_asked() {
    let j = jvm("17.0.2", "x86_64", "/j");
    assert!(filter_arch(&None, &j));
    assert!(filter_name(&None, &j));
    assert!(filter_ver(&None, &j));
    assert!(filter_ver(&None, &jvm("", "x86_64", "/j")));
}

#[test]
fn filters_hold_what_is_asked() {
    let j = jvm("17.0.2", "x86_64", "/j");
    assert!(filter_arch(&Some(text("x86_64")), &j));
    assert!(!filter_arch(&Some(text("aarch64")), &j));
    assert!(filter_name(&Some(text("jvm")), &j));
    assert!(!filter_name(&Some(text("JVM")), &j));
    assert!(filter_ver(&Some(text("17")), &j));
    assert!(filter_ver(&Some(text("11+")), &j));
    assert!(!filter_ver(&Some(text("21+")), &j));
    assert!(!filter_ver(&Some(text("17.0.1")), &j));
    assert!(!filter_ver(&Some(text("11+")), &jvm("", "x86_64", "/j")));
    assert!(!filter_ver(&Some(text("+")), &j));
}

#[test]
fn default_architecture_breaks_a_tie() {
    let x = jvm("17", "x86_64", "/x");
    let a = jvm("17", "aarch64", "/a");
    let d = text("x86_64");
    assert_eq!(compare_boosting_architecture(&x, &a, &d), Ordering::Less);
    assert_eq!(compare_boosting_architecture(&a, &x, &d), Ordering::Greater);
    assert_eq!(compare_boosting_architecture(&x, &x, &d), Ordering::Equal);
    assert_eq!(compare_boosting_architecture(&a, &a, &d), Ordering::Equal);
    let found = vec![
        released("/a", "a", "JAVA_VERSION=17\nOS_ARCH=aarch64\n"),
        released("/x", "x", "JAVA_VERSION=17\nOS_ARCH=x86_64\n"),
    ];
    let ranked = collate_jvms(&host("x86_64"), &found);
    assert_eq!(ranked.len(), 2);
    assert_eq!(ranked[0].architecture, "x86_64");
    assert_eq!(ranked[1].architecture, "aarch64");
    let ranked = collate_jvms(&host("aarch64"), &found);
    assert_eq!(ranked[0].architecture, "aarch64");
}

#[test]
fn version_decides_before_architecture() {
    let x = jvm("17", "x86_64", "/x");
    let a = jvm("18", "aarch64", "/a");
    let d = text("x86_64");
    assert_eq!(compare_boosting_architecture(&x, &a, &d), Ordering::Greater);
    assert_eq!(compare_boosting_architecture(&a, &x, &d), Ordering::Less);
    let found = vec![
        released("/x", "x", "JAVA_VERSION=17\nOS_ARCH=x86_64\n"),
        released("/a", "a", "JAVA_VERSION=18\nOS_ARCH=aarch64\n"),
    ];
    let ranked = collate_jvms(&host("x86_64"), &found);
    assert_eq!(ranked[0].version, "18");
    assert_eq!(ranked[1].version, "17");
}

#[test]
fn level_versions_in_different_writing_tie() {
    let legacy = jvm("1.8", "aarch64", "/l");
    let modern = jvm("8", "x86_64", "/m");
    assert_eq!(compare_boosting_architecture(&legacy, &modern, &text("x86_64")), Ordering::Greater);
    assert_eq!(compare_boosting_architecture(&legacy, &modern, &text("arm")), Ordering::Equal);
}

#[test]
fn collation_ranks_newest_first_and_unknown_last() {
    let found = vec![
        released("/8", "8", "JAVA_VERSION=\"1.8.0_292\"\n"),
        released("/none", "none", "OS_ARCH=amd64\n"),
        released("/21", "21", "JAVA_VERSION=\"21.0.1\"\n"),
        released("/11", "11", "JAVA_VERSION=\"11.0.2\"\n"),
        released("/ea", "ea", "JAVA_VERSION=\"22-ea\"\n"),
        released("/11b", "11b", "JAVA_VERSION=\"11\"\n"),
    ];
    let ranked = collate_jvms(&host("x86_64"), &found);
    let paths: Vec<&str> = ranked.iter().map(|j| j.path.as_str()).collect();
    assert_eq!(paths, vec!["/21", "/11", "/11b", "/8", "/none", "/ea"]);
}

#[test]
fn collation_keeps_one_jvm_per_path() {
    let found = vec![
        released("/j", "first", "JAVA_VERSION=17\n"),
        released("/k", "other", "JAVA_VERSION=11\n"),
        released("/j", "second", "JAVA_VERSION=21\n"),
    ];
    let ranked = collate_jvms(&host("x86_64"), &found);
    assert_eq!(ranked.len(), 2);
    assert_eq!(ranked[0].name, "first");
    assert_eq!(ranked[1].name, "other");
}

#[test]
fn collation_skips_what_cannot_be_described() {
    let found = vec![bare("/j", "default-java"), bare("/k", "java-11-openjdk-amd64")];
    let ranked = collate_jvms(&host("x86_64"), &found);
    assert_eq!(ranked.len(), 1);
    assert_eq!(ranked[0].path, "/k");
    assert!(collate_jvms(&host("x86_64"), &Vec::new()).is_empty());
}

#[test]
fn query_for_minimum_version_end_to_end() {
    let found = vec![
        bare("/usr/lib/jvm/java-8-openjdk-amd64", "java-8-openjdk-amd64"),
        released(
            "/usr/lib/jvm/java-17-openjdk-amd64",
            "java-17-openjdk-amd64",
            "VERSION=17.0.2\nOS_ARCH=amd64\n",
        ),
    ];
    let query = MatchOptions { name: None, arch: None, version: Some(text("11+")) };
    let jvms = run(query, &linux(), &found);
    assert_eq!(
        jvms,
        vec![Jvm {
            version: text("17.0.2"),
            name: text("java-17-openjdk-amd64"),
            architecture: text("x86_64"),
            path: text("/usr/lib/jvm/java-17-openjdk-amd64"),
        }]
    );
}

#[test]
fn run_filters_by_every_field_asked() {
    let found = vec![
        released("/a", "alpha", "JAVA_VERSION=17.0.2\nOS_ARCH=aarch64\n"),
        released("/b", "beta", "JAVA_VERSION=17.0.1\nOS_ARCH=amd64\n"),
        released("/c", "gamma", "JAVA_VERSION=11\nOS_ARCH=amd64\n"),
    ];
    let all = run(no_query(), &linux(), &found);
    let paths: Vec<&str> = all.iter().map(|j| j.path.as_str()).collect();
    assert_eq!(paths, vec!["/a", "/b", "/c"]);
    let by_arch = MatchOptions { name: None, arch: Some(text("x86_64")), version: None };
    let paths: Vec<String> = run(by_arch, &linux(), &found).into_iter().map(|j| j.path).collect();
    assert_eq!(paths, vec!["/b", "/c"]);
    let by_all = MatchOptions {
        name: Some(text("beta")),
        arch: Some(text("x86_64")),
        version: Some(text("17")),
    };
    let paths: Vec<String> = run(by_all, &linux(), &found).into_iter().map(|j| j.path).collect();
    assert_eq!(paths, vec!["/b"]);
    let by_name = MatchOptions { name: Some(text("delta")), arch: None, version: None };
    assert!(run(by_name, &linux(), &found).is_empty());
}

#[test]
fn run_returns_nothing_on_an_unknown_host() {
    let found = vec![released("/a", "alpha", "JAVA_VERSION=17\nOS_ARCH=amd64\n")];
    let unknown = HostReport::Unix { uname: text("SunOS sparc\n"), os_release: None };
    assert!(run(no_query(), &unknown, &found).is_empty());
    assert_eq!(run(no_query(), &linux(), &found).len(), 1);
}
