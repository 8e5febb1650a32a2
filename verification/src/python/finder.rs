//! Queries for Python interpreters and the finder that answers them.

use crate::python::providers::{
    get_provider, provider_named, python_views, specificity, string_views, suffix_preference,
    Environment, EnvironmentView, Provider, ProviderView,
};
use crate::python::python::{
    admitted, file_name, Attribute, Lazy, PythonVersion, PythonView,
};
use crate::ranking::{
    ahead, entry_views, lemma_staged_items_idempotent, lemma_staged_member, preferred, stage, staged, staged_items,
    Entry, EntryView,
};
use crate::text::{chars_of, is_number, number_value, parse_number};
use vstd::prelude::*;

verus! {

/// The grammar of a version spec such as `3`, `3.11`, `3.12.0rc1` or
/// `3.9-32`, with a named group for every part.
pub const VERSION_PATTERN: &'static str =
    r#"(?x)
        ^(?P<major>\d+)(?:\.(?P<minor>\d+)(?:\.(?P<patch>[0-9]+))?)?\.?
        (?:(?P<prerel>[abc]|rc|dev)(?:(?P<prerelversion>\d+(?:\.\d+)*))?)
        ?(?P<postdev>(\.post(?P<post>\d+))?(\.dev(?P<dev>\d+))?)?
        (?:-(?P<architecture>32|64))?"#;

/// The named groups that took part in the first match of the regular
/// expression `pattern` in `text`, each with the text it matched; `None`
/// where the pattern is not a regular expression, where matching gives up,
/// or where there is no match.
pub uninterp spec fn regex_captures(pattern: Seq<char>, text: Seq<char>) -> Option<
    Map<Seq<char>, Seq<char>>,
>;

/// What a list of optional texts says of the groups with these names.
pub open spec fn groups_are(
    groups: Seq<Option<String>>,
    names: Seq<String>,
    found: Map<Seq<char>, Seq<char>>,
) -> bool {
    &&& groups.len() == names.len()
    &&& forall|i: int|
        0 <= i < names.len() ==> match #[trigger] groups[i] {
            Some(text) => found.contains_key(names[i]@) && found[names[i]@] == text@,
            None => !found.contains_key(names[i]@),
        }
}

/// Compiles `pattern` with `fancy_regex::Regex::new` and matches it against
/// `text` with `Regex::captures`. The result is trusted to give, for each of
/// `names` in turn, what `Captures::name` returns for it, and to be `None`
/// where compiling or matching fails or nothing matches.
#[verifier::external_body]
fn captures(pattern: &str, text: &str, names: &Vec<String>) -> (r: Option<Vec<Option<String>>>)
    ensures
        match r {
            Some(groups) => regex_captures(pattern@, text@) matches Some(found) && groups_are(
                groups@,
                names@,
                found,
            ),
            None => regex_captures(pattern@, text@) is None,
        },
{
    let expression = match fancy_regex::Regex::new(pattern) {
        Ok(expression) => expression,
        Err(_) => return None,
    };
    match expression.captures(text) {
        Ok(Some(found)) => Some(
            names.iter().map(|n| found.name(n).map(|m| m.as_str().to_string())).collect(),
        ),
        _ => None,
    }
}

/// What a query asks of a Python interpreter. A field that is `None` asks
/// nothing.
#[derive(Debug, Clone, PartialEq, Eq)]
pub struct MatchOptions {
    pub major: Option<usize>,
    pub minor: Option<usize>,
    pub patch: Option<usize>,
    pub pre: Option<bool>,
    pub dev: Option<bool>,
    pub name: Option<String>,
    pub architecture: Option<String>,
}

/// A [`MatchOptions`] as the contracts see it.
pub ghost struct MatchOptionsView {
    pub major: Option<nat>,
    pub minor: Option<nat>,
    pub patch: Option<nat>,
    pub pre: Option<bool>,
    pub dev: Option<bool>,
    pub name: Option<Seq<char>>,
    pub architecture: Option<Seq<char>>,
}

/// The view of an optional text.
pub open spec fn text_view(text: Option<String>) -> Option<Seq<char>> {
    match text {
        Some(t) => Some(t@),
        None => None,
    }
}

/// The view of an optional number.
pub open spec fn number_view(number: Option<usize>) -> Option<nat> {
    match number {
        Some(n) => Some(n as nat),
        None => None,
    }
}

impl View for MatchOptions {
    type V = MatchOptionsView;

    open spec fn view(&self) -> MatchOptionsView {
        MatchOptionsView {
            major: number_view(self.major),
            minor: number_view(self.minor),
            patch: number_view(self.patch),
            pre: self.pre,
            dev: self.dev,
            name: text_view(self.name),
            architecture: text_view(self.architecture),
        }
    }
}

/// The query that asks nothing.
pub open spec fn no_options() -> MatchOptionsView {
    MatchOptionsView {
        major: None,
        minor: None,
        patch: None,
        pre: None,
        dev: None,
        name: None,
        architecture: None,
    }
}

impl Default for MatchOptions {
    fn default() -> (r: MatchOptions)
        ensures
            r@ == no_options(),
    {
        MatchOptions {
            major: None,
            minor: None,
            patch: None,
            pre: None,
            dev: None,
            name: None,
            architecture: None,
        }
    }
}

/// A group that holds a number is read when it is a run of ASCII digits
/// whose value fits `usize`.
pub open spec fn readable(group: Option<Seq<char>>) -> bool {
    group matches Some(text) ==> is_number(text) && number_value(text) <= usize::MAX
}

/// The number in a group.
pub open spec fn number_in(group: Option<Seq<char>>) -> Option<nat> {
    match group {
        Some(text) => Some(number_value(text)),
        None => None,
    }
}

/// The query that the groups of a version spec stand for: its numbers,
/// whether it names a pre-release or a development release, and, from `32`
/// or `64`, the architecture `32bit` or `64bit`. `None` where a number
/// cannot be read.
pub open spec fn options_of(
    major: Option<Seq<char>>,
    minor: Option<Seq<char>>,
    patch: Option<Seq<char>>,
    prerel: Option<Seq<char>>,
    dev: Option<Seq<char>>,
    architecture: Option<Seq<char>>,
) -> Option<MatchOptionsView> {
    if readable(major) && readable(minor) && readable(patch) {
        Some(
            MatchOptionsView {
                major: number_in(major),
                minor: number_in(minor),
                patch: number_in(patch),
                pre: if prerel is Some {
                    Some(true)
                } else {
                    None
                },
                dev: if dev is Some {
                    Some(true)
                } else {
                    None
                },
                name: None,
                architecture: match architecture {
                    Some(bits) => Some(bits + "bit"@),
                    None => None,
                },
            },
        )
    } else {
        None
    }
}

/// The group of `found` with this name.
pub open spec fn group(found: Map<Seq<char>, Seq<char>>, name: Seq<char>) -> Option<Seq<char>> {
    if found.contains_key(name) {
        Some(found[name])
    } else {
        None
    }
}

/// The query that a version spec stands for, by the groups of
/// [`VERSION_PATTERN`] in it; `None` where the text is no version spec.
pub open spec fn options_in(version: Seq<char>) -> Option<MatchOptionsView> {
    match regex_captures(VERSION_PATTERN@, version) {
        Some(found) => options_of(
            group(found, "major"@),
            group(found, "minor"@),
            group(found, "patch"@),
            group(found, "prerel"@),
            group(found, "dev"@),
            group(found, "architecture"@),
        ),
        None => None,
    }
}

/// Reads the number in a group.
fn read_group(group: &Option<String>) -> (r: Option<Option<usize>>)
    ensures
        match r {
            Some(n) => readable(text_view(*group)) && number_view(n) == number_in(
                text_view(*group),
            ),
            None => !readable(text_view(*group)),
        },
{
    match group {
        None => Some(None),
        Some(text) => match parse_number(&chars_of(text.as_str())) {
            Some(n) => {
                if n > usize::MAX as u64 {
                    None
                } else {
                    Some(Some(n as usize))
                }
            },
            None => None,
        },
    }
}

impl MatchOptions {
    /// The query that the groups of a version spec stand for.
    pub fn from_groups(
        major: &Option<String>,
        minor: &Option<String>,
        patch: &Option<String>,
        prerel: &Option<String>,
        dev: &Option<String>,
        architecture: &Option<String>,
    ) -> (r: Option<MatchOptions>)
        ensures
            match r {
                Some(options) => Some(options@) == options_of(
                    text_view(*major),
                    text_view(*minor),
                    text_view(*patch),
                    text_view(*prerel),
                    text_view(*dev),
                    text_view(*architecture),
                ),
                None => options_of(
                    text_view(*major),
                    text_view(*minor),
                    text_view(*patch),
                    text_view(*prerel),
                    text_view(*dev),
                    text_view(*architecture),
                ) is None,
            },
    {
        let major = match read_group(major) {
            Some(n) => n,
            None => {
                return None;
            },
        };
        let minor = match read_group(minor) {
            Some(n) => n,
            None => {
                return None;
            },
        };
        let patch = match read_group(patch) {
            Some(n) => n,
            None => {
                return None;
            },
        };
        let architecture = match architecture {
            Some(bits) => {
                let mut name = bits.clone();
                name.append("bit");
                Some(name)
            },
            None => None,
        };
        Some(
            MatchOptions {
                major,
                minor,
                patch,
                pre: if prerel.is_some() {
                    Some(true)
                } else {
                    None
                },
                dev: if dev.is_some() {
                    Some(true)
                } else {
                    None
                },
                name: None,
                architecture,
            },
        )
    }

    /// The query that a version spec stands for; `None` where the text is no
    /// version spec.
    pub fn from_version(version: &str) -> (r: Option<MatchOptions>)
        ensures
            match r {
                Some(options) => options_in(version@) == Some(options@),
                None => options_in(version@) is None,
            },
    {
        let mut names: Vec<String> = Vec::new();
        names.push("major".to_owned());
        names.push("minor".to_owned());
        names.push("patch".to_owned());
        names.push("prerel".to_owned());
        names.push("dev".to_owned());
        names.push("architecture".to_owned());
        match captures(VERSION_PATTERN, version, &names) {
            Some(groups) => {
                proof {
                    let found = regex_captures(VERSION_PATTERN@, version@).unwrap();
                    assert(text_view(groups@[0]) == group(found, "major"@));
                    assert(text_view(groups@[1]) == group(found, "minor"@));
                    assert(text_view(groups@[2]) == group(found, "patch"@));
                    assert(text_view(groups@[3]) == group(found, "prerel"@));
                    assert(text_view(groups@[4]) == group(found, "dev"@));
                    assert(text_view(groups@[5]) == group(found, "architecture"@));
                }
                MatchOptions::from_groups(
                    &groups[0],
                    &groups[1],
                    &groups[2],
                    &groups[3],
                    &groups[4],
                    &groups[5],
                )
            },
            None => None,
        }
    }

    /// The query that `version` stands for where it is a version spec;
    /// else this query with `version` as the name asked for.
    pub fn version_spec(self, version: &str) -> (r: MatchOptions)
        ensures
            r@ == match options_in(version@) {
                Some(options) => options,
                None => MatchOptionsView { name: Some(version@), ..self@ },
            },
    {
        if let Some(res) = MatchOptions::from_version(version) {
            res
        } else {
            self.name(version)
        }
    }

    /// Asks for this major version.
    pub fn major(self, major: usize) -> (r: MatchOptions)
        ensures
            r@ == (MatchOptionsView { major: Some(major as nat), ..self@ }),
    {
        MatchOptions { major: Some(major), ..self }
    }

    /// Asks for this minor version.
    pub fn minor(self, minor: usize) -> (r: MatchOptions)
        ensures
            r@ == (MatchOptionsView { minor: Some(minor as nat), ..self@ }),
    {
        MatchOptions { minor: Some(minor), ..self }
    }

    /// Asks for this patch version.
    pub fn patch(self, patch: usize) -> (r: MatchOptions)
        ensures
            r@ == (MatchOptionsView { patch: Some(patch as nat), ..self@ }),
    {
        MatchOptions { patch: Some(patch), ..self }
    }

    /// Asks for a pre-release, or for none.
    pub fn pre(self, pre: bool) -> (r: MatchOptions)
        ensures
            r@ == (MatchOptionsView { pre: Some(pre), ..self@ }),
    {
        MatchOptions { pre: Some(pre), ..self }
    }

    /// Asks for a development release, or for none.
    pub fn dev(self, dev: bool) -> (r: MatchOptions)
        ensures
            r@ == (MatchOptionsView { dev: Some(dev), ..self@ }),
    {
        MatchOptions { dev: Some(dev), ..self }
    }

    /// Asks for an executable with this file name.
    pub fn name(self, name: &str) -> (r: MatchOptions)
        ensures
            r@ == (MatchOptionsView { name: Some(name@), ..self@ }),
    {
        MatchOptions { name: Some(name.to_owned()), ..self }
    }

    /// Asks for this architecture.
    pub fn architecture(self, architecture: &str) -> (r: MatchOptions)
        ensures
            r@ == (MatchOptionsView { architecture: Some(architecture@), ..self@ }),
    {
        MatchOptions { architecture: Some(architecture.to_owned()), ..self }
    }
}

/// Finds Python interpreters among candidates.
#[derive(Clone, Debug, PartialEq, Eq)]
pub struct Finder {
    /// The providers that candidates are asked from, in order.
    pub providers: Vec<Provider>,
    /// Candidates are the same where the files behind their links are.
    pub resolve_symlinks: bool,
    /// Candidates with the same bytes at different paths are different.
    pub same_file: bool,
    /// Candidates that run the same interpreter are different.
    pub same_interpreter: bool,
}

/// A [`Finder`] as the contracts see it.
pub ghost struct FinderView {
    pub providers: Seq<ProviderView>,
    pub resolve_symlinks: bool,
    pub same_file: bool,
    pub same_interpreter: bool,
}

/// The views of a sequence of providers.
pub open spec fn provider_views(providers: Seq<Provider>) -> Seq<ProviderView> {
    providers.map_values(|p: Provider| p@)
}

impl View for Finder {
    type V = FinderView;

    open spec fn view(&self) -> FinderView {
        FinderView {
            providers: provider_views(self.providers@),
            resolve_symlinks: self.resolve_symlinks,
            same_file: self.same_file,
            same_interpreter: self.same_interpreter,
        }
    }
}

/// The finder to start from: it has no providers yet, identifies a
/// candidate by the path it was found at, and keeps apart neither equal
/// files nor equal interpreters.
pub open spec fn plain_finder() -> FinderView {
    FinderView {
        providers: Seq::empty(),
        resolve_symlinks: false,
        same_file: true,
        same_interpreter: true,
    }
}

impl Default for Finder {
    fn default() -> (r: Finder)
        ensures
            r@ == plain_finder(),
    {
        let r = Finder {
            providers: Vec::new(),
            resolve_symlinks: false,
            same_file: true,
            same_interpreter: true,
        };
        assert(provider_views(r.providers@) =~= Seq::<ProviderView>::empty());
        r
    }
}

/// The providers of these names that the environment allows, in the order
/// of the names. A name whose provider the environment does not allow, or
/// that no provider goes by, adds nothing.
pub open spec fn providers_selected(names: Seq<Seq<char>>, environment: EnvironmentView) -> Seq<
    ProviderView,
>
    decreases names.len(),
{
    if names.len() == 0 {
        Seq::empty()
    } else {
        let head = providers_selected(names.drop_last(), environment);
        match provider_named(names.last(), environment) {
            Some(provider) => head.push(provider),
            None => head,
        }
    }
}

/// What the providers found, one after the other.
pub open spec fn gathered(found: Seq<Vec<PythonVersion>>) -> Seq<PythonView>
    decreases found.len(),
{
    if found.len() == 0 {
        Seq::empty()
    } else {
        gathered(found.drop_last()) + python_views(found.last()@)
    }
}

/// What identifies a candidate for a finder, from the strictest rule that
/// is switched on: the interpreter that it runs, where equal interpreters
/// are kept apart; else the fingerprint of its file, where equal files are
/// kept apart; else the file behind its links, where links are resolved and
/// the candidate does not keep its own; else the path it was found at.
/// `None` where what the rule asks for is not known.
pub open spec fn identity(finder: FinderView, python: PythonView) -> Option<Seq<char>> {
    if !finder.same_interpreter {
        match python.interpreter {
            Lazy::Ready(interpreter) => Some(interpreter),
            _ => None,
        }
    } else if !finder.same_file {
        python.content_hash
    } else if finder.resolve_symlinks && !python.keep_symlink {
        match python.real_path {
            Some(path) => Some(path),
            None => Some(python.executable),
        }
    } else {
        Some(python.executable)
    }
}

/// The numbers of the candidate's version, where it is known.
pub open spec fn release_of(python: PythonView) -> Option<Seq<nat>> {
    match python.version {
        Lazy::Ready(version) => Some(version.release),
        _ => None,
    }
}

/// A candidate as it enters ranking. Of two candidates with one identity
/// the one that is no link is preferred, then the one with the less
/// specific file name, then the one with the longer path. Candidates rank
/// by version, and by the length of their path where the versions are
/// level.
pub open spec fn python_entry(finder: FinderView, python: PythonView) -> EntryView<PythonView> {
    EntryView {
        identity: match identity(finder, python) {
            Some(key) => key,
            None => Seq::empty(),
        },
        symlink: python.is_symlink,
        specificity: specificity(file_name(python.executable)),
        length: python.executable.len(),
        version: release_of(python),
        weight: python.executable.len(),
        item: python,
    }
}

/// The candidates that a finder can identify, in their order.
pub open spec fn identified(finder: FinderView, pythons: Seq<PythonView>) -> Seq<PythonView>
    decreases pythons.len(),
{
    if pythons.len() == 0 {
        Seq::empty()
    } else {
        let head = identified(finder, pythons.drop_last());
        if identity(finder, pythons.last()) is Some {
            head.push(pythons.last())
        } else {
            head
        }
    }
}

/// The candidates without duplicates, in ranking order: of the candidates
/// that the finder can identify one per identity, the latest version first
/// and the longer path first among level versions.
pub open spec fn deduplicated(finder: FinderView, pythons: Seq<PythonView>) -> Seq<PythonView> {
    staged_items(|p: PythonView| python_entry(finder, p), identified(finder, pythons))
}

/// What a finder has to learn of a candidate before it can rank it: the
/// interpreter, where that identifies candidates, and then the version.
pub open spec fn ranking_wants(finder: FinderView, python: PythonView) -> Option<Attribute> {
    if !finder.same_interpreter && python.interpreter is Pending {
        Some(Attribute::Interpreter)
    } else if python.version is Pending {
        Some(Attribute::Version)
    } else {
        None
    }
}

/// The name that a provider gives a candidate is for people to read: it
/// decides neither whether a query admits the candidate, nor what
/// identifies it, nor which of two candidates is preferred or ranks ahead.
pub proof fn lemma_label_is_cosmetic(
    finder: FinderView,
    options: MatchOptionsView,
    python: PythonView,
    other: PythonView,
    label: Option<Seq<char>>,
)
    ensures
        ({
            let renamed = PythonView { formatted_name: label, ..python };
            &&& admitted(renamed, options) == admitted(python, options)
            &&& identity(finder, renamed) == identity(finder, python)
            &&& preferred(python_entry(finder, renamed), python_entry(finder, other)) == preferred(
                python_entry(finder, python),
                python_entry(finder, other),
            )
            &&& ahead(python_entry(finder, renamed), python_entry(finder, other)) == ahead(
                python_entry(finder, python),
                python_entry(finder, other),
            )
        }),
{
}

/// Every candidate that a finder identified has an identity.
pub proof fn lemma_identified_have_identity(finder: FinderView, pythons: Seq<PythonView>)
    ensures
        forall|i: int|
            0 <= i < identified(finder, pythons).len() ==> identity(
                finder,
                #[trigger] identified(finder, pythons)[i],
            ) is Some,
    decreases pythons.len(),
{
    if pythons.len() > 0 {
        lemma_identified_have_identity(finder, pythons.drop_last());
    }
}

/// Where every candidate has an identity, all are identified.
pub proof fn lemma_identified_of_known(finder: FinderView, pythons: Seq<PythonView>)
    requires
        forall|i: int| 0 <= i < pythons.len() ==> identity(finder, #[trigger] pythons[i]) is Some,
    ensures
        identified(finder, pythons) == pythons,
    decreases pythons.len(),
{
    if pythons.len() > 0 {
        let head = pythons.drop_last();
        assert forall|i: int| 0 <= i < head.len() implies identity(
            finder,
            #[trigger] head[i],
        ) is Some by {
            assert(head[i] == pythons[i]);
        }
        lemma_identified_of_known(finder, head);
        assert(identity(finder, pythons[pythons.len() - 1]) is Some);
        assert(head.push(pythons.last()) == pythons);
    } else {
        assert(pythons == Seq::<PythonView>::empty());
    }
}

/// De-duplication is idempotent: run on what it returned, it returns the
/// same.
pub proof fn lemma_deduplicated_idempotent(finder: FinderView, pythons: Seq<PythonView>)
    ensures
        deduplicated(finder, deduplicated(finder, pythons)) == deduplicated(finder, pythons),
{
    let known = identified(finder, pythons);
    let enter = |p: PythonView| python_entry(finder, p);
    let entries = known.map_values(enter);
    let out = deduplicated(finder, pythons);
    lemma_identified_have_identity(finder, pythons);
    assert forall|i: int| 0 <= i < out.len() implies identity(finder, #[trigger] out[i]) is Some by {
        let j = lemma_staged_member(entries, i);
        assert(entries[j] == enter(known[j]));
        assert(out[i] == staged(entries)[i].item);
    }
    lemma_identified_of_known(finder, out);
    lemma_staged_items_idempotent(enter, known);
}

/// The selection of providers goes name by name: what a list of names
/// selects is what its front selects, followed by what its back selects.
pub proof fn lemma_providers_selected_concat(
    front: Seq<Seq<char>>,
    back: Seq<Seq<char>>,
    environment: EnvironmentView,
)
    ensures
        providers_selected(front + back, environment) == providers_selected(front, environment)
            + providers_selected(back, environment),
    decreases back.len(),
{
    if back.len() == 0 {
        assert(front + back == front);
    } else {
        lemma_providers_selected_concat(front, back.drop_last(), environment);
        assert((front + back).drop_last() == front + back.drop_last());
        assert((front + back).last() == back.last());
    }
}

/// A provider that the environment does not allow is skipped, and the
/// providers before and after it are selected as if it had not been named.
pub proof fn lemma_unavailable_provider_is_skipped(
    front: Seq<Seq<char>>,
    name: Seq<char>,
    back: Seq<Seq<char>>,
    environment: EnvironmentView,
)
    requires
        provider_named(name, environment) is None,
    ensures
        providers_selected(front.push(name) + back, environment) == providers_selected(
            front + back,
            environment,
        ),
{
    lemma_providers_selected_concat(front.push(name), back, environment);
    lemma_providers_selected_concat(front, back, environment);
    assert(front.push(name).drop_last() == front);
}

/// Without `RYE_ROOT` and without a home directory there is no provider
/// for Rye; without a home directory there is none for Conda.
pub proof fn lemma_providers_need_their_roots(environment: EnvironmentView)
    ensures
        environment.rye_root is None && environment.home_dir is None ==> provider_named(
            "rye"@,
            environment,
        ) is None,
        environment.home_dir is None ==> provider_named("conda"@, environment) is None,
{
    reveal_strlit("rye");
    reveal_strlit("conda");
    reveal_strlit("path");
    assert("rye"@.len() == 3);
    assert("conda"@.len() == 5);
    assert("path"@.len() == 4);
}

/// Gathering goes provider by provider.
pub proof fn lemma_gathered_concat(front: Seq<Vec<PythonVersion>>, back: Seq<Vec<PythonVersion>>)
    ensures
        gathered(front + back) == gathered(front) + gathered(back),
    decreases back.len(),
{
    if back.len() == 0 {
        assert(front + back == front);
    } else {
        lemma_gathered_concat(front, back.drop_last());
        assert((front + back).drop_last() == front + back.drop_last());
        assert((front + back).last() == back.last());
    }
}

/// A provider that found nothing changes nothing in what is gathered from
/// the providers before and after it.
pub proof fn lemma_empty_find_changes_nothing(
    front: Seq<Vec<PythonVersion>>,
    nothing: Vec<PythonVersion>,
    back: Seq<Vec<PythonVersion>>,
)
    requires
        nothing@.len() == 0,
    ensures
        gathered(front.push(nothing) + back) == gathered(front + back),
{
    lemma_gathered_concat(front.push(nothing), back);
    lemma_gathered_concat(front, back);
    assert(front.push(nothing).drop_last() == front);
    assert(python_views(nothing@) == Seq::<PythonView>::empty());
}

/// The candidates that have what a query asks for, in their order.
pub open spec fn matching(options: MatchOptionsView, pythons: Seq<PythonView>) -> Seq<PythonView>
    decreases pythons.len(),
{
    if pythons.len() == 0 {
        Seq::empty()
    } else {
        let head = matching(options, pythons.drop_last());
        if admitted(pythons.last(), options) {
            head.push(pythons.last())
        } else {
            head
        }
    }
}

impl Finder {
    /// The finder with the providers of these names that the environment
    /// allows.
    pub fn select_providers(self, names: &Vec<String>, environment: &Environment) -> (r: Finder)
        ensures
            r@ == (FinderView {
                providers: providers_selected(string_views(names@), environment@),
                ..self@
            }),
    {
        let ghost all = string_views(names@);
        let mut providers: Vec<Provider> = Vec::new();
        let mut i: usize = 0;
        proof {
            assert(all.take(0) == Seq::<Seq<char>>::empty());
            assert(provider_views(providers@) == Seq::<ProviderView>::empty());
        }
        while i < names.len()
            invariant
                i <= names.len(),
                all == string_views(names@),
                provider_views(providers@) == providers_selected(
                    all.take(i as int),
                    environment@,
                ),
            decreases names.len() - i,
        {
            let ghost before = provider_views(providers@);
            proof {
                assert(all.take(i + 1).drop_last() == all.take(i as int));
                assert(all.take(i + 1).last() == names@[i as int]@);
            }
            match get_provider(names[i].as_str(), environment) {
                Some(provider) => {
                    let ghost view = provider@;
                    providers.push(provider);
                    proof {
                        assert(provider_views(providers@) == before.push(view));
                    }
                },
                None => {},
            }
            i += 1;
        }
        proof {
            assert(all.take(names.len() as int) == all);
        }
        Finder { providers, ..self }
    }

    /// The finder that does or does not take the file behind a link for the
    /// candidate's identity.
    pub fn resolve_symlinks(self, resolve_symlinks: bool) -> (r: Finder)
        ensures
            r@ == (FinderView { resolve_symlinks, ..self@ }),
    {
        Finder { resolve_symlinks, ..self }
    }

    /// The finder that does or does not keep equal files apart.
    pub fn same_file(self, same_file: bool) -> (r: Finder)
        ensures
            r@ == (FinderView { same_file, ..self@ }),
    {
        Finder { same_file, ..self }
    }

    /// The finder that does or does not keep equal interpreters apart.
    pub fn same_interpreter(self, same_interpreter: bool) -> (r: Finder)
        ensures
            r@ == (FinderView { same_interpreter, ..self@ }),
    {
        Finder { same_interpreter, ..self }
    }

    /// All candidates: what each provider found, in the order of the
    /// providers.
    pub fn find_all_python_versions(&self, found: Vec<Vec<PythonVersion>>) -> (all: Vec<
        PythonVersion,
    >)
        ensures
            python_views(all@) == gathered(found@),
    {
        let mut all: Vec<PythonVersion> = Vec::new();
        proof {
            assert(found@.take(0) == Seq::<Vec<PythonVersion>>::empty());
            assert(python_views(all@) == Seq::<PythonView>::empty());
        }
        for one in it: found
            invariant
                it.seq() == found@,
                python_views(all@) == gathered(found@.take(it.index() as int)),
        {
            let ghost k = it.index() as int;
            let ghost before = python_views(all@);
            let ghost added = python_views(one@);
            proof {
                assert(found@.take(k + 1).drop_last() == found@.take(k));
                assert(found@.take(k + 1).last() == one);
            }
            let mut one = one;
            all.append(&mut one);
            proof {
                assert(python_views(all@) == before + added);
            }
        }
        proof {
            assert(found@.take(found@.len() as int) == found@);
        }
        all
    }

    /// The attribute to learn next before the candidate can be ranked.
    pub fn pending(&self, python: &PythonVersion) -> (r: Option<Attribute>)
        ensures
            r == ranking_wants(self@, python@),
    {
        if !self.same_interpreter {
            if let Lazy::Pending = &python.interpreter {
                return Some(Attribute::Interpreter);
            }
        }
        if let Lazy::Pending = &python.version {
            return Some(Attribute::Version);
        }
        None
    }

    /// What identifies the candidate for this finder, where that is known.
    pub fn deduplicate_key(&self, python: &PythonVersion) -> (key: Option<String>)
        ensures
            text_view(key) == identity(self@, python@),
    {
        if !self.same_interpreter {
            return match &python.interpreter {
                Lazy::Ready(interpreter) => Some(interpreter.clone()),
                _ => None,
            };
        }
        if !self.same_file {
            return match &python.content_hash {
                Some(hash) => Some(hash.clone()),
                None => None,
            };
        }
        if self.resolve_symlinks && !python.keep_symlink {
            return Some(python.real_path());
        }
        Some(python.executable.clone())
    }

    /// Drops duplicates and ranks what is left. A candidate that the finder
    /// cannot identify is dropped.
    pub fn deduplicate(&self, versions: Vec<PythonVersion>) -> (out: Vec<PythonVersion>)
        ensures
            python_views(out@) == deduplicated(self@, python_views(versions@)),
    {
        let ghost finder = self@;
        let ghost all = python_views(versions@);
        let ghost enter = |p: PythonView| python_entry(finder, p);
        let mut entries: Vec<Entry<PythonVersion>> = Vec::new();
        proof {
            assert(all.take(0) == Seq::<PythonView>::empty());
            assert(entry_views(entries@) == identified(finder, all.take(0)).map_values(enter));
        }
        for python in it: versions
            invariant
                it.seq() == versions@,
                finder == self@,
                all == python_views(versions@),
                enter == |p: PythonView| python_entry(finder, p),
                entry_views(entries@) == identified(
                    finder,
                    all.take(it.index() as int),
                ).map_values(enter),
        {
            let ghost k = it.index() as int;
            let ghost before = entry_views(entries@);
            let ghost head = identified(finder, all.take(k));
            proof {
                assert(all.take(k + 1).drop_last() == all.take(k));
                assert(all.take(k + 1).last() == python@);
            }
            match self.deduplicate_key(&python) {
                Some(key) => {
                    let length = python.executable.as_str().unicode_len() as u64;
                    let entry = Entry {
                        identity: key,
                        symlink: python.is_symlink,
                        specificity: suffix_preference(python.executable.as_str()),
                        length,
                        version: match &python.version {
                            Lazy::Ready(version) => Some(version.version.components.clone()),
                            _ => None,
                        },
                        weight: length,
                        item: python,
                    };
                    proof {
                        assert(entry@ == python_entry(finder, python@));
                    }
                    entries.push(entry);
                    proof {
                        assert(entry_views(entries@) == before.push(python_entry(finder, python@)));
                        assert(head.push(python@).map_values(enter) == head.map_values(enter).push(
                            python_entry(finder, python@),
                        ));
                    }
                },
                None => {},
            }
        }
        proof {
            assert(all.take(versions@.len() as int) == all);
        }
        let ranked = stage(entries);
        let ghost ranked_views = entry_views(ranked@);
        let ghost item = |e: EntryView<PythonView>| e.item;
        let mut out: Vec<PythonVersion> = Vec::new();
        proof {
            assert(python_views(out@) == ranked_views.take(0).map_values(item));
        }
        for entry in it: ranked
            invariant
                it.seq() == ranked@,
                ranked_views == entry_views(ranked@),
                item == |e: EntryView<PythonView>| e.item,
                python_views(out@) == ranked_views.take(it.index() as int).map_values(item),
        {
            let ghost k = it.index() as int;
            let ghost before = python_views(out@);
            proof {
                assert(ranked_views.take(k + 1) == ranked_views.take(k).push(entry@));
            }
            out.push(entry.item);
            proof {
                assert(python_views(out@) == before.push(entry@.item));
                assert(ranked_views.take(k + 1).map_values(item) == ranked_views.take(
                    k,
                ).map_values(item).push(entry@.item));
            }
        }
        proof {
            assert(ranked_views.take(ranked@.len() as int) == ranked_views);
        }
        out
    }

    /// The candidates that have what the query asks for, without
    /// duplicates, in ranking order.
    pub fn find_all(&self, options: &MatchOptions, pythons: Vec<PythonVersion>) -> (out: Vec<
        PythonVersion,
    >)
        ensures
            python_views(out@) == deduplicated(
                self@,
                matching(options@, python_views(pythons@)),
            ),
    {
        let ghost all = python_views(pythons@);
        let mut filtered: Vec<PythonVersion> = Vec::new();
        proof {
            assert(all.take(0) == Seq::<PythonView>::empty());
            assert(python_views(filtered@) == Seq::<PythonView>::empty());
        }
        for python in it: pythons
            invariant
                it.seq() == pythons@,
                all == python_views(pythons@),
                python_views(filtered@) == matching(options@, all.take(it.index() as int)),
        {
            let ghost k = it.index() as int;
            let ghost before = python_views(filtered@);
            proof {
                assert(all.take(k + 1).drop_last() == all.take(k));
                assert(all.take(k + 1).last() == python@);
            }
            if python.matches(options) {
                filtered.push(python);
                proof {
                    assert(python_views(filtered@) == before.push(python@));
                }
            }
        }
        proof {
            assert(all.take(pythons@.len() as int) == all);
        }
        self.deduplicate(filtered)
    }

    /// The first of the candidates that [`Finder::find_all`] returns.
    pub fn find(&self, options: &MatchOptions, pythons: Vec<PythonVersion>) -> (r: Option<
        PythonVersion,
    >)
        ensures
            ({
                let all = deduplicated(self@, matching(options@, python_views(pythons@)));
                match r {
                    Some(python) => all.len() > 0 && python@ == all[0],
                    None => all.len() == 0,
                }
            }),
    {
        let mut all = self.find_all(options, pythons);
        if all.len() > 0 {
            let ghost views = python_views(all@);
            let first = all.remove(0);
            assert(first@ == views[0]);
            Some(first)
        } else {
            None
        }
    }
}

} // verus!
