//! Java virtual machines: what was found on the host, filtered by a query
//! and ranked, the newest first.

pub mod host;

use crate::java::host::{
    detected, get_operating_system, property, unquoted_property, HostReport, OperatingSystem,
};
use crate::properties::{properties_of, Properties};
use crate::ranking::{
    ahead, entry_views, lemma_staged_items_idempotent, stage, staged_items, version_sign, Entry,
    EntryView,
};
use crate::text::{
    chars_of, replace_all, same_chars, split, split_on, string_of, substitute, texts,
};
use crate::version::{
    below, lemma_below_is_strict_total, naturals, parse_components, parsed, satisfies,
    satisfies_chars, truncated, written, Version,
};
use std::cmp::Ordering;
use vstd::prelude::*;

verus! {

/// What a query asks of a JVM. A field that is `None` asks nothing.
#[derive(Clone, Debug)]
pub struct MatchOptions {
    /// The name the JVM must have.
    pub name: Option<String>,
    /// The architecture the JVM must have, such as `x86_64` or `aarch64`.
    pub arch: Option<String>,
    /// The version the JVM must have, such as `1.8` or `11`; with a `+` at
    /// its end, the lowest version it may have.
    pub version: Option<String>,
}

/// A JVM found on the host.
#[derive(Clone, Debug, PartialEq, Eq, Hash)]
pub struct Jvm {
    /// The version as its metadata gives it; empty where nothing gives it.
    pub version: String,
    /// The name the JVM goes by.
    pub name: String,
    /// The architecture it was built for, under this library's name for it.
    pub architecture: String,
    /// The home directory of the JVM.
    pub path: String,
}

/// A [`Jvm`] as the contracts see it.
pub ghost struct JvmView {
    pub version: Seq<char>,
    pub name: Seq<char>,
    pub architecture: Seq<char>,
    pub path: Seq<char>,
}

impl View for Jvm {
    type V = JvmView;

    open spec fn view(&self) -> JvmView {
        JvmView {
            version: self.version@,
            name: self.name@,
            architecture: self.architecture@,
            path: self.path@,
        }
    }
}

/// The views of a sequence of JVMs.
pub open spec fn jvm_views(jvms: Seq<Jvm>) -> Seq<JvmView> {
    jvms.map_values(|j: Jvm| j@)
}

/// Whether the JVM has the architecture asked for.
pub fn filter_arch(arch: &Option<String>, jvm: &Jvm) -> (r: bool)
    ensures
        r == (arch matches Some(a) ==> jvm.architecture@ == a@),
{
    match arch {
        Some(a) => jvm.architecture == *a,
        None => true,
    }
}

/// Whether the JVM has the name asked for.
pub fn filter_name(name: &Option<String>, jvm: &Jvm) -> (r: bool)
    ensures
        r == (name matches Some(n) ==> jvm.name@ == n@),
{
    match name {
        Some(n) => jvm.name == *n,
        None => true,
    }
}

/// Whether the JVM's version meets the version spec asked for. A JVM whose
/// version does not parse meets no spec.
pub fn filter_ver(ver: &Option<String>, jvm: &Jvm) -> (r: bool)
    ensures
        r == (ver matches Some(v) ==> satisfies(jvm.version@, v@)),
{
    match ver {
        Some(v) => {
            let candidate = chars_of(jvm.version.as_str());
            let spec = chars_of(v.as_str());
            satisfies_chars(&candidate, &spec)
        },
        None => true,
    }
}

/// Orders two version texts. A leading `1.` and the writing with `_` do not
/// count: `1.8` and `8` are level. A text that is no version comes before
/// every version and is level with every other such text.
pub fn compare_version_values(version1: &String, version2: &String) -> (r: Ordering)
    ensures
        (r == Ordering::Less) == below(parsed(version1@), parsed(version2@)),
        (r == Ordering::Greater) == below(parsed(version2@), parsed(version1@)),
{
    let first = parse_components(&chars_of(version1.as_str()));
    let second = parse_components(&chars_of(version2.as_str()));
    let s = version_sign(&first, &second);
    if s < 0 {
        Ordering::Less
    } else if s > 0 {
        Ordering::Greater
    } else {
        Ordering::Equal
    }
}

/// The version of the JVM cut to as many components as `version` names, in
/// dotted writing: what of the JVM's version a spec of that depth looks at.
/// `None` where one of the two is no version.
pub fn get_compare_version(jvm: &Jvm, version: &String) -> (r: Option<String>)
    ensures
        match (parsed(jvm.version@), parsed(version@)) {
            (Some(c), Some(b)) => r matches Some(text) && text@ == written(truncated(c, b.len())),
            _ => r is None,
        },
{
    let candidate = match parse_components(&chars_of(jvm.version.as_str())) {
        Some(c) => c,
        None => {
            return None;
        },
    };
    let bound = match parse_components(&chars_of(version.as_str())) {
        Some(b) => b,
        None => {
            return None;
        },
    };
    let mut components: Vec<u64> = Vec::new();
    let mut i: usize = 0;
    while i < candidate.len() && i < bound.len()
        invariant
            i <= candidate.len(),
            i <= bound.len(),
            components@ == candidate@.take(i as int),
        decreases candidate.len() - i,
    {
        components.push(candidate[i]);
        proof {
            assert(candidate@.take(i + 1) == candidate@.take(i as int).push(candidate@[i as int]));
        }
        i += 1;
    }
    proof {
        assert(candidate@.take(candidate.len() as int) == candidate@);
        assert(naturals(components@) =~= truncated(naturals(candidate@), bound@.len()));
        assert(naturals(bound@).len() == bound@.len());
    }
    let head = Version { components, is_prerelease: false, is_development: false };
    Some(head.to_string())
}

/// Orders two JVMs for ranking: `Less` where `a` ranks ahead of `b`. The
/// JVM with the later version ranks ahead. Of two JVMs whose versions are
/// level, the one with the default architecture ranks ahead of one without.
pub fn compare_boosting_architecture(a: &Jvm, b: &Jvm, default_arch: &String) -> (r: Ordering)
    ensures
        (r == Ordering::Less) == ahead(entry_of(a@, default_arch@), entry_of(b@, default_arch@)),
        (r == Ordering::Greater) == ahead(
            entry_of(b@, default_arch@),
            entry_of(a@, default_arch@),
        ),
{
    proof {
        lemma_below_is_strict_total(parsed(a.version@), parsed(b.version@), None);
        lemma_below_is_strict_total(parsed(b.version@), parsed(a.version@), None);
    }
    let version_test = compare_version_values(&b.version, &a.version);
    match version_test {
        Ordering::Equal => {
            let a_default = a.architecture == *default_arch;
            let b_default = b.architecture == *default_arch;
            if a_default && !b_default {
                Ordering::Less
            } else if b_default && !a_default {
                Ordering::Greater
            } else {
                Ordering::Equal
            }
        },
        Ordering::Less => Ordering::Less,
        Ordering::Greater => Ordering::Greater,
    }
}

/// The default architecture decides between two JVMs only where their
/// versions are level: where the versions differ, the same JVM ranks ahead
/// whatever the default architecture is; where they are level, a JVM with
/// the default architecture ranks ahead of one without.
pub proof fn lemma_architecture_only_breaks_ties(
    a: JvmView,
    b: JvmView,
    default_architecture: Seq<char>,
    other_architecture: Seq<char>,
)
    ensures
        parsed(a.version) != parsed(b.version) ==> ahead(
            entry_of(a, default_architecture),
            entry_of(b, default_architecture),
        ) == ahead(entry_of(a, other_architecture), entry_of(b, other_architecture)),
        parsed(a.version) != parsed(b.version) ==> ahead(
            entry_of(a, default_architecture),
            entry_of(b, default_architecture),
        ) == below(parsed(b.version), parsed(a.version)),
        parsed(a.version) == parsed(b.version) ==> ahead(
            entry_of(a, default_architecture),
            entry_of(b, default_architecture),
        ) == (a.architecture == default_architecture && b.architecture != default_architecture),
{
    lemma_below_is_strict_total(parsed(a.version), parsed(b.version), None);
    lemma_below_is_strict_total(parsed(b.version), parsed(a.version), None);
}

/// Where to look for JVMs besides the places that the host is known for.
#[derive(Clone, Debug, PartialEq, Eq)]
pub struct Config {
    /// More directories that hold JVMs, searched first.
    pub paths: Vec<String>,
}

impl Default for Config {
    fn default() -> (r: Config)
        ensures
            r.paths@.len() == 0,
    {
        Config { paths: Vec::new() }
    }
}

/// The directory in which a host of this name keeps its JVMs, where it is
/// known for one.
pub open spec fn default_root(os_name: Seq<char>) -> Option<Seq<char>> {
    if os_name == "macOS"@ {
        Some("/Library/Java/JavaVirtualMachines"@)
    } else if os_name == "ubuntu"@ || os_name == "debian"@ || os_name == "rhel"@ || os_name
        == "centos"@ || os_name == "fedora"@ {
        Some("/usr/lib/jvm"@)
    } else {
        None
    }
}

/// The directories to search: those of the configuration, then the one the
/// host is known for.
pub open spec fn roots_of(os_name: Seq<char>, paths: Seq<Seq<char>>) -> Seq<Seq<char>> {
    match default_root(os_name) {
        Some(root) => paths.push(root),
        None => paths,
    }
}

/// The directories in which JVMs are looked for on this host.
pub fn search_roots(os: &OperatingSystem, cfg: &Config) -> (roots: Vec<String>)
    ensures
        roots@.map_values(|r: String| r@) == roots_of(
            os.name@,
            cfg.paths@.map_values(|p: String| p@),
        ),
{
    let mut roots: Vec<String> = Vec::new();
    let mut i: usize = 0;
    while i < cfg.paths.len()
        invariant
            i <= cfg.paths.len(),
            roots.len() == i,
            forall|j: int| 0 <= j < i ==> roots@[j]@ == cfg.paths@[j]@,
        decreases cfg.paths.len() - i,
    {
        roots.push(cfg.paths[i].clone());
        i += 1;
    }
    let name = chars_of(os.name.as_str());
    if same_chars(&name, &chars_of("macOS")) {
        roots.push("/Library/Java/JavaVirtualMachines".to_owned());
    } else if same_chars(&name, &chars_of("ubuntu")) || same_chars(&name, &chars_of("debian"))
        || same_chars(&name, &chars_of("rhel")) || same_chars(&name, &chars_of("centos"))
        || same_chars(&name, &chars_of("fedora")) {
        roots.push("/usr/lib/jvm".to_owned());
    }
    roots
}

/// A place where a JVM may be installed, as enumeration found it.
#[derive(Clone, Debug)]
pub struct Installation {
    /// The home directory of the installation.
    pub path: String,
    /// The name that enumeration gives the installation: the name of its
    /// directory or of its bundle. `None` where the name is to be made from
    /// the metadata.
    pub label: Option<String>,
    /// The bytes of the installation's `release` file, where it has one.
    pub release: Option<Vec<u8>>,
}

/// An [`Installation`] as the contracts see it.
pub ghost struct InstallationView {
    pub path: Seq<char>,
    pub label: Option<Seq<char>>,
    pub release: Option<Seq<u8>>,
}

impl View for Installation {
    type V = InstallationView;

    open spec fn view(&self) -> InstallationView {
        InstallationView {
            path: self.path@,
            label: match self.label {
                Some(l) => Some(l@),
                None => None,
            },
            release: match self.release {
                Some(r) => Some(r@),
                None => None,
            },
        }
    }
}

/// The views of a sequence of installations.
pub open spec fn installation_views(found: Seq<Installation>) -> Seq<InstallationView> {
    found.map_values(|i: Installation| i@)
}

/// An architecture under the name this library uses for it: `amd64` reads
/// `x86_64`, and `i386` reads `x86`.
pub open spec fn normal_architecture(architecture: Seq<char>) -> Seq<char> {
    substitute(substitute(architecture, "amd64"@, "x86_64"@), "i386"@, "x86"@)
}

/// The value of the first of two keys that the file has, without its double
/// quotes; empty where it has neither.
pub open spec fn property_of_either(
    map: Map<Seq<char>, Seq<char>>,
    first: Seq<char>,
    second: Seq<char>,
) -> Seq<char> {
    if map.contains_key(first) {
        property(map, first)
    } else {
        property(map, second)
    }
}

/// The JVM that a `release` file describes. The version is `JAVA_VERSION`,
/// or `VERSION` where that is missing; the architecture is `OS_ARCH`, or
/// `ARCH`. Without a label the name is made of `IMPLEMENTOR` and the version.
pub open spec fn from_release(
    path: Seq<char>,
    label: Option<Seq<char>>,
    map: Map<Seq<char>, Seq<char>>,
) -> JvmView {
    let version = property_of_either(map, "JAVA_VERSION"@, "VERSION"@);
    JvmView {
        version,
        name: match label {
            Some(l) => l,
            None => property(map, "IMPLEMENTOR"@) + " - "@ + version,
        },
        architecture: normal_architecture(property_of_either(map, "OS_ARCH"@, "ARCH"@)),
        path,
    }
}

/// The JVM that a directory name of the form `java-8-openjdk-amd64`
/// describes: after `java`, the version, the vendor and the architecture.
/// `None` for a name of another form.
pub open spec fn from_label(path: Seq<char>, label: Seq<char>) -> Option<JvmView> {
    let parts = split(label, '-');
    if parts.len() >= 4 && parts[0] == "java"@ {
        Some(
            JvmView {
                version: parts[1],
                name: label,
                architecture: normal_architecture(parts[3]),
                path,
            },
        )
    } else {
        None
    }
}

/// The key-value pairs of a `release` file, where there is one and it can be
/// read.
pub open spec fn metadata(release: Option<Seq<u8>>) -> Option<Map<Seq<char>, Seq<char>>> {
    match release {
        Some(bytes) => properties_of(bytes),
        None => None,
    }
}

/// The JVM at an installation: what its `release` file says where it has
/// one that can be read, else what its label says, else none.
pub open spec fn described(found: InstallationView) -> Option<JvmView> {
    match metadata(found.release) {
        Some(map) => Some(from_release(found.path, found.label, map)),
        None => match found.label {
            Some(label) => from_label(found.path, label),
            None => None,
        },
    }
}

/// The JVMs at the installations, in the order of the installations.
pub open spec fn described_all(found: Seq<InstallationView>) -> Seq<JvmView>
    decreases found.len(),
{
    if found.len() == 0 {
        Seq::empty()
    } else {
        let head = described_all(found.drop_last());
        match described(found.last()) {
            Some(jvm) => head.push(jvm),
            None => head,
        }
    }
}

/// A JVM as it enters ranking: identified by its path, ranked by its
/// version, and among JVMs of one version ranked first where it has the
/// host's default architecture.
pub open spec fn entry_of(jvm: JvmView, default_architecture: Seq<char>) -> EntryView<JvmView> {
    EntryView {
        identity: jvm.path,
        symlink: false,
        specificity: 0,
        length: 0,
        version: parsed(jvm.version),
        weight: if jvm.architecture == default_architecture {
            1
        } else {
            0
        },
        item: jvm,
    }
}

/// The JVMs, one per path, the newest first.
pub open spec fn ranked_jvms(default_architecture: Seq<char>, jvms: Seq<JvmView>) -> Seq<JvmView> {
    staged_items(|j: JvmView| entry_of(j, default_architecture), jvms)
}

/// The JVMs at the installations, one per path, the newest first.
pub open spec fn collated(default_architecture: Seq<char>, found: Seq<InstallationView>) -> Seq<
    JvmView,
> {
    ranked_jvms(default_architecture, described_all(found))
}

/// De-duplication and ranking of JVMs is idempotent: run on what it
/// returned, it returns the same.
pub proof fn lemma_ranked_jvms_idempotent(default_architecture: Seq<char>, jvms: Seq<JvmView>)
    ensures
        ranked_jvms(default_architecture, ranked_jvms(default_architecture, jvms)) == ranked_jvms(
            default_architecture,
            jvms,
        ),
{
    lemma_staged_items_idempotent(|j: JvmView| entry_of(j, default_architecture), jvms);
}

/// Whether a JVM has what the query asks for.
pub open spec fn admits(args: MatchOptions, jvm: JvmView) -> bool {
    &&& args.arch matches Some(a) ==> jvm.architecture == a@
    &&& args.version matches Some(v) ==> satisfies(jvm.version, v@)
    &&& args.name matches Some(n) ==> jvm.name == n@
}

/// The JVMs that have what the query asks for, in their order.
pub open spec fn admitted(args: MatchOptions, jvms: Seq<JvmView>) -> Seq<JvmView>
    decreases jvms.len(),
{
    if jvms.len() == 0 {
        Seq::empty()
    } else {
        let head = admitted(args, jvms.drop_last());
        if admits(args, jvms.last()) {
            head.push(jvms.last())
        } else {
            head
        }
    }
}

/// Writes an architecture under the name this library uses for it.
pub fn normalize_architecture(architecture: &Vec<char>) -> (out: Vec<char>)
    ensures
        out@ == normal_architecture(architecture@),
{
    let first = replace_all(architecture, &chars_of("amd64"), &chars_of("x86_64"));
    replace_all(&first, &chars_of("i386"), &chars_of("x86"))
}

/// The value of the first of two keys that the file has.
fn property_from(properties: &Properties, first: &str, second: &str) -> (out: Vec<char>)
    ensures
        out@ == property_of_either(properties@, first@, second@),
{
    match properties.get(first) {
        Some(_) => unquoted_property(properties, first),
        None => unquoted_property(properties, second),
    }
}

/// Builds the JVM that parsed metadata describes.
fn jvm_from_properties(path: &String, label: &Option<String>, properties: &Properties) -> (jvm:
    Jvm)
    ensures
        jvm@ == from_release(
            path@,
            match *label {
                Some(l) => Some(l@),
                None => None,
            },
            properties@,
        ),
{
    let version = property_from(properties, "JAVA_VERSION", "VERSION");
    let architecture = normalize_architecture(&property_from(properties, "OS_ARCH", "ARCH"));
    let name = match label {
        Some(l) => l.clone(),
        None => {
            let mut name = string_of(&unquoted_property(properties, "IMPLEMENTOR"));
            name.append(" - ");
            name.append(string_of(&version).as_str());
            name
        },
    };
    Jvm {
        version: string_of(&version),
        name,
        architecture: string_of(&architecture),
        path: path.clone(),
    }
}

/// Reads the `release` file of the JVM at `jvm_path`. The JVM is named
/// after its implementor and version. `None` where the bytes are not a
/// properties file.
pub fn process_release_file(jvm_path: &String, release_file: &Vec<u8>) -> (r: Option<Jvm>)
    ensures
        match r {
            Some(jvm) => properties_of(release_file@) is Some && jvm@ == from_release(
                jvm_path@,
                None,
                properties_of(release_file@).unwrap(),
            ),
            None => properties_of(release_file@) is None,
        },
{
    match Properties::parse(release_file) {
        Some(properties) => Some(jvm_from_properties(jvm_path, &None, &properties)),
        None => None,
    }
}

/// Reads a JVM off the name of its directory.
fn jvm_from_label(path: &String, label: &String) -> (r: Option<Jvm>)
    ensures
        match r {
            Some(jvm) => from_label(path@, label@) == Some(jvm@),
            None => from_label(path@, label@) is None,
        },
{
    let parts = split_on(&chars_of(label.as_str()), '-');
    if parts.len() < 4 {
        return None;
    }
    proof {
        assert(texts(parts@)[0] == parts@[0]@);
        assert(texts(parts@)[1] == parts@[1]@);
        assert(texts(parts@)[3] == parts@[3]@);
    }
    if !same_chars(&parts[0], &chars_of("java")) {
        return None;
    }
    Some(
        Jvm {
            version: string_of(&parts[1]),
            name: label.clone(),
            architecture: string_of(&normalize_architecture(&parts[3])),
            path: path.clone(),
        },
    )
}

/// The JVM at an installation, if there is one to be made out.
pub fn describe(found: &Installation) -> (r: Option<Jvm>)
    ensures
        match r {
            Some(jvm) => described(found@) == Some(jvm@),
            None => described(found@) is None,
        },
{
    if let Some(bytes) = &found.release {
        if let Some(properties) = Properties::parse(bytes) {
            return Some(jvm_from_properties(&found.path, &found.label, &properties));
        }
    }
    match &found.label {
        Some(label) => jvm_from_label(&found.path, label),
        None => None,
    }
}

/// The entry with which a JVM goes into ranking.
fn entry_for(jvm: Jvm, default_architecture: &String) -> (entry: Entry<Jvm>)
    ensures
        entry@ == entry_of(jvm@, default_architecture@),
{
    let version = parse_components(&chars_of(jvm.version.as_str()));
    let weight: u64 = if jvm.architecture == *default_architecture {
        1
    } else {
        0
    };
    Entry {
        identity: jvm.path.clone(),
        symlink: false,
        specificity: 0,
        length: 0,
        version,
        weight,
        item: jvm,
    }
}

/// Makes out the JVMs at the installations, keeps one per path, and ranks
/// them: the newest version first, and of two JVMs of one version the one
/// with the host's default architecture first.
pub fn collate_jvms(os: &OperatingSystem, found: &Vec<Installation>) -> (jvms: Vec<Jvm>)
    ensures
        jvm_views(jvms@) == collated(os.architecture@, installation_views(found@)),
{
    let ghost views = installation_views(found@);
    let ghost arch = os.architecture@;
    let ghost enter = |j: JvmView| entry_of(j, arch);
    let mut entries: Vec<Entry<Jvm>> = Vec::new();
    let mut i: usize = 0;
    proof {
        assert(views.take(0) == Seq::<InstallationView>::empty());
        assert(entry_views(entries@) == described_all(views.take(0)).map_values(enter));
    }
    while i < found.len()
        invariant
            i <= found.len(),
            views == installation_views(found@),
            arch == os.architecture@,
            enter == |j: JvmView| entry_of(j, arch),
            entry_views(entries@) == described_all(views.take(i as int)).map_values(enter),
        decreases found.len() - i,
    {
        let ghost before = entry_views(entries@);
        let ghost head = described_all(views.take(i as int));
        proof {
            assert(views.take(i + 1).drop_last() == views.take(i as int));
            assert(views.take(i + 1).last() == found@[i as int]@);
        }
        match describe(&found[i]) {
            Some(jvm) => {
                let ghost view = jvm@;
                entries.push(entry_for(jvm, &os.architecture));
                proof {
                    assert(entry_views(entries@) == before.push(entry_of(view, arch)));
                    assert(head.push(view).map_values(enter) == head.map_values(enter).push(
                        entry_of(view, arch),
                    ));
                }
            },
            None => {},
        }
        i += 1;
    }
    proof {
        assert(views.take(found.len() as int) == views);
    }
    let ranked = stage(entries);
    let ghost ranked_views = entry_views(ranked@);
    let ghost item = |e: EntryView<JvmView>| e.item;
    let mut jvms: Vec<Jvm> = Vec::new();
    proof {
        assert(jvm_views(jvms@) == ranked_views.take(0).map_values(item));
    }
    for entry in it: ranked
        invariant
            it.seq() == ranked@,
            ranked_views == entry_views(ranked@),
            item == |e: EntryView<JvmView>| e.item,
            jvm_views(jvms@) == ranked_views.take(it.index() as int).map_values(item),
    {
        let ghost k = it.index() as int;
        let ghost before = jvm_views(jvms@);
        proof {
            assert(ranked_views.take(k + 1) == ranked_views.take(k).push(entry@));
        }
        jvms.push(entry.item);
        proof {
            assert(jvm_views(jvms@) == before.push(entry@.item));
            assert(ranked_views.take(k + 1).map_values(item) == ranked_views.take(k).map_values(
                item,
            ).push(entry@.item));
        }
    }
    proof {
        assert(ranked_views.take(ranked@.len() as int) == ranked_views);
    }
    jvms
}

/// Finds the JVMs that a query asks for. `host` is what the machine reports
/// of itself and `found` what enumeration found on it. Where the host cannot
/// be made out there is no result at all; otherwise the result holds the
/// collated JVMs that have what the query asks for.
pub fn run(args: MatchOptions, host: &HostReport, found: &Vec<Installation>) -> (jvms: Vec<Jvm>)
    ensures
        jvm_views(jvms@) == match detected(*host) {
            Some((_, architecture)) => admitted(
                args,
                collated(architecture, installation_views(found@)),
            ),
            None => Seq::empty(),
        },
{
    let operating_system = match get_operating_system(host) {
        Some(os) => os,
        None => {
            let none: Vec<Jvm> = Vec::new();
            assert(jvm_views(none@) == Seq::<JvmView>::empty());
            return none;
        },
    };
    let all = collate_jvms(&operating_system, found);
    let ghost views = jvm_views(all@);
    let mut jvms: Vec<Jvm> = Vec::new();
    proof {
        assert(views.take(0) == Seq::<JvmView>::empty());
        assert(jvm_views(jvms@) == Seq::<JvmView>::empty());
    }
    for jvm in it: all
        invariant
            it.seq() == all@,
            views == jvm_views(all@),
            jvm_views(jvms@) == admitted(args, views.take(it.index() as int)),
    {
        let ghost k = it.index() as int;
        let ghost before = jvm_views(jvms@);
        proof {
            assert(views.take(k + 1).drop_last() == views.take(k));
            assert(views.take(k + 1).last() == jvm@);
        }
        if filter_arch(&args.arch, &jvm) && filter_ver(&args.version, &jvm) && filter_name(
            &args.name,
            &jvm,
        ) {
            jvms.push(jvm);
            proof {
                assert(jvm_views(jvms@) == before.push(jvm@));
            }
        }
    }
    proof {
        assert(views.take(all@.len() as int) == views);
    }
    jvms
}

} // verus!
