//! The sources that Python interpreters are enumerated from.
//!
//! A provider decides where to look and what to make of what is there. It
//! reads no directory itself: listings are made elsewhere and handed in.

pub mod conda;
pub mod path;
pub mod rye;

use crate::python::finder::text_view;
use crate::python::providers::conda::{conda_provider, CondaProvider};
use crate::python::providers::path::{path_provider, PathProvider};
use crate::python::providers::rye::{rye_provider, RyeProvider};
use crate::python::python::{
    file_name, file_name_of, fresh, is_separator, Lazy, PythonVersion, PythonView,
};
use crate::text::{
    chars_of, digit_of, digit_value, ends_with, has_prefix, has_suffix, is_number, same_chars,
    slice_of, split, split_on, starts_with, texts,
};
use vstd::prelude::*;

verus! {

/// What the environment of the process says that providers ask about.
#[derive(Clone, Debug, PartialEq, Eq)]
pub struct Environment {
    /// The directories of the search path, in order.
    pub path_entries: Vec<String>,
    /// The value of `CONDA_ROOT`, where it is set.
    pub conda_root: Option<String>,
    /// The value of `RYE_ROOT`, where it is set.
    pub rye_root: Option<String>,
    /// The user's home directory, where there is one.
    pub home_dir: Option<String>,
}

/// The views of a sequence of strings.
pub open spec fn string_views(strings: Seq<String>) -> Seq<Seq<char>> {
    strings.map_values(|s: String| s@)
}

/// An [`Environment`] as the contracts see it.
pub ghost struct EnvironmentView {
    pub path_entries: Seq<Seq<char>>,
    pub conda_root: Option<Seq<char>>,
    pub rye_root: Option<Seq<char>>,
    pub home_dir: Option<Seq<char>>,
}

impl View for Environment {
    type V = EnvironmentView;

    open spec fn view(&self) -> EnvironmentView {
        EnvironmentView {
            path_entries: string_views(self.path_entries@),
            conda_root: text_view(self.conda_root),
            rye_root: text_view(self.rye_root),
            home_dir: text_view(self.home_dir),
        }
    }
}

/// An entry of a directory.
#[derive(Clone, Debug, PartialEq, Eq)]
pub struct DirEntry {
    /// The path of the entry.
    pub path: String,
    /// The entry is a directory, or a link to one.
    pub is_dir: bool,
    /// The entry is a symbolic link.
    pub is_symlink: bool,
}

/// `child` below the directory `base`.
pub open spec fn joined(base: Seq<char>, child: Seq<char>) -> Seq<char> {
    if base.len() == 0 {
        child
    } else if is_separator(base.last()) {
        base + child
    } else {
        base.push('/') + child
    }
}

/// The path of `child` below the directory `base`.
pub fn join_path(base: &str, child: &str) -> (path: String)
    ensures
        path@ == joined(base@, child@),
{
    let b = chars_of(base);
    if b.len() == 0 {
        return child.to_owned();
    }
    let last = b[b.len() - 1];
    let mut path = base.to_owned();
    if !(last == '/' || last == '\\') {
        path.push('/');
    }
    path.append(child);
    path
}

/// A file name without a closing `.exe`.
pub open spec fn without_exe(name: Seq<char>) -> Seq<char> {
    if has_suffix(name, ".exe"@) {
        name.take(name.len() - ".exe"@.len())
    } else {
        name
    }
}

/// What follows `python` in a file name reads as a version of at most two
/// numbers.
pub open spec fn version_pieces(rest: Seq<char>) -> Option<Seq<Seq<char>>> {
    let pieces = split(rest, '.');
    if rest.len() == 0 {
        Some(Seq::empty())
    } else if pieces.len() <= 2 && (forall|i: int|
        0 <= i < pieces.len() ==> is_number(#[trigger] pieces[i])) {
        Some(pieces)
    } else {
        None
    }
}

/// The pieces of the version that the file name of an interpreter carries
/// after `python`: none in `python`, one in `python3`, two in `python3.11`.
/// A closing `.exe` does not count. `None` where the name is not that of an
/// interpreter.
pub open spec fn interpreter_suffix(name: Seq<char>) -> Option<Seq<Seq<char>>> {
    let base = without_exe(name);
    if has_prefix(base, "python"@) {
        version_pieces(base.skip("python"@.len() as int))
    } else {
        None
    }
}

/// Whether a file name is that of a Python interpreter.
pub open spec fn is_python_name(name: Seq<char>) -> bool {
    interpreter_suffix(name) is Some
}

/// How specific a file name is: the number of version pieces it carries,
/// and three for a name that is not that of an interpreter.
pub open spec fn specificity(name: Seq<char>) -> nat {
    match interpreter_suffix(name) {
        Some(pieces) => pieces.len(),
        None => 3,
    }
}

/// Whether `s` is a non-empty run of digits.
fn is_digits(s: &Vec<char>) -> (r: bool)
    ensures
        r == is_number(s@),
{
    if s.len() == 0 {
        return false;
    }
    let mut i: usize = 0;
    while i < s.len()
        invariant
            i <= s.len(),
            forall|j: int| 0 <= j < i ==> (#[trigger] digit_of(s@[j])) is Some,
        decreases s.len() - i,
    {
        if digit_value(s[i]).is_none() {
            return false;
        }
        i += 1;
    }
    true
}

/// The number of version pieces in an interpreter's file name, or `None`
/// for another name.
#[verifier::loop_isolation(false)]
fn suffix_pieces(name: &Vec<char>) -> (r: Option<u64>)
    ensures
        match r {
            Some(n) => interpreter_suffix(name@) matches Some(pieces) && pieces.len() == n,
            None => interpreter_suffix(name@) is None,
        },
{
    let exe = chars_of(".exe");
    let stem = chars_of("python");
    let base = if ends_with(name, &exe) {
        slice_of(name, 0, name.len() - exe.len())
    } else {
        slice_of(name, 0, name.len())
    };
    proof {
        assert(name@.subrange(0, name.len() as int) == name@);
        if has_suffix(name@, exe@) {
            assert(name@.subrange(0, name.len() - exe.len()) == name@.take(
                name.len() - exe.len(),
            ));
        }
    }
    if !starts_with(&base, &stem) {
        return None;
    }
    let rest = slice_of(&base, stem.len(), base.len());
    proof {
        assert(base@.subrange(stem.len() as int, base.len() as int) == base@.skip(
            stem.len() as int,
        ));
    }
    if rest.len() == 0 {
        return Some(0);
    }
    let pieces = split_on(&rest, '.');
    if pieces.len() > 2 {
        return None;
    }
    let mut i: usize = 0;
    while i < pieces.len()
        invariant
            i <= pieces.len(),
            forall|j: int| 0 <= j < i ==> is_number(#[trigger] texts(pieces@)[j]),
        decreases pieces.len() - i,
    {
        proof {
            assert(texts(pieces@)[i as int] == pieces@[i as int]@);
        }
        if !is_digits(&pieces[i]) {
            return None;
        }
        i += 1;
    }
    Some(pieces.len() as u64)
}

/// Whether the file at `path` goes by the name of a Python interpreter.
pub fn path_is_python(path: &str) -> (r: bool)
    ensures
        r == is_python_name(file_name(path@)),
{
    suffix_pieces(&file_name_of(&chars_of(path))).is_some()
}

/// How specific the file name at `path` is; a plain `python` is least
/// specific.
pub fn suffix_preference(path: &str) -> (r: u64)
    ensures
        r == specificity(file_name(path@)),
{
    match suffix_pieces(&file_name_of(&chars_of(path))) {
        Some(n) => n,
        None => 3,
    }
}

/// The views of a sequence of candidates.
pub open spec fn python_views(pythons: Seq<PythonVersion>) -> Seq<PythonView> {
    pythons.map_values(|p: PythonVersion| p@)
}

/// The candidate that stands for the entry at `path`: known by its path
/// alone, or, where the path is that of the interpreter itself, with itself
/// as interpreter.
pub open spec fn candidate_at(path: Seq<char>, is_symlink: bool, as_interpreter: bool) -> PythonView {
    PythonView {
        is_symlink,
        interpreter: if as_interpreter {
            Lazy::Ready(path)
        } else {
            Lazy::Pending
        },
        ..fresh(path)
    }
}

/// Where the first entry stands that goes by the name of an interpreter, or
/// the number of entries where none does.
pub open spec fn first_python(entries: Seq<DirEntry>) -> int
    decreases entries.len(),
{
    if entries.len() == 0 {
        0
    } else if is_python_name(file_name(entries[0].path@)) {
        0
    } else {
        1 + first_python(entries.skip(1))
    }
}

/// What a directory holds of interpreters: the first entry that goes by the
/// name of one, and nothing more, so that `python3` and `python3.11` in one
/// directory do not count twice. A directory that could not be read holds
/// none.
pub open spec fn pythons_in(entries: Option<Seq<DirEntry>>, as_interpreter: bool) -> Seq<
    PythonView,
> {
    match entries {
        Some(entries) => {
            let at = first_python(entries);
            if at < entries.len() {
                seq![candidate_at(entries[at].path@, entries[at].is_symlink, as_interpreter)]
            } else {
                Seq::empty()
            }
        },
        None => Seq::empty(),
    }
}

/// The entries of a listing, where there is one.
pub open spec fn entries_view(listing: Option<Vec<DirEntry>>) -> Option<Seq<DirEntry>> {
    match listing {
        Some(entries) => Some(entries@),
        None => None,
    }
}

/// Finds the interpreter in a directory, of which `listing` holds the
/// entries, or nothing where the directory could not be read.
/// `as_interpreter` says that what is found is the interpreter itself and
/// no wrapper around one.
#[verifier::loop_isolation(false)]
pub fn find_pythons_from_path(listing: &Option<Vec<DirEntry>>, as_interpreter: bool) -> (found:
    Vec<PythonVersion>)
    ensures
        python_views(found@) == pythons_in(entries_view(*listing), as_interpreter),
{
    let mut found: Vec<PythonVersion> = Vec::new();
    proof {
        assert(python_views(found@) == Seq::<PythonView>::empty());
    }
    let entries = match listing {
        Some(entries) => entries,
        None => {
            return found;
        },
    };
    let mut i: usize = 0;
    proof {
        assert(entries@.skip(0) == entries@);
    }
    while i < entries.len()
        invariant
            i <= entries.len(),
            found@.len() == 0,
            first_python(entries@) == i + first_python(entries@.skip(i as int)),
        decreases entries.len() - i,
    {
        proof {
            assert(entries@.skip(i as int)[0] == entries@[i as int]);
            assert(entries@.skip(i as int).skip(1) == entries@.skip(i + 1));
        }
        if path_is_python(entries[i].path.as_str()) {
            let path = entries[i].path.clone();
            let mut python = PythonVersion::new(path);
            python.is_symlink = entries[i].is_symlink;
            if as_interpreter {
                python.interpreter = Lazy::Ready(entries[i].path.clone());
            }
            let ghost view = python@;
            found.push(python);
            proof {
                assert(python_views(found@) == seq![view]);
            }
            return found;
        }
        i += 1;
    }
    found
}

/// A source of candidates.
#[derive(Clone, Debug, PartialEq, Eq)]
pub enum Provider {
    /// The directories of the search path.
    Path(PathProvider),
    /// The environments of Conda.
    Conda(CondaProvider),
    /// The toolchains of Rye.
    Rye(RyeProvider),
}

/// A [`Provider`] as the contracts see it.
pub ghost enum ProviderView {
    /// The directories that are searched.
    Path(Seq<Seq<char>>),
    /// The directories that hold environments.
    Conda(Seq<Seq<char>>),
    /// The directory that holds Rye's data.
    Rye(Seq<char>),
}

impl View for Provider {
    type V = ProviderView;

    open spec fn view(&self) -> ProviderView {
        match *self {
            Provider::Path(p) => ProviderView::Path(p@),
            Provider::Conda(p) => ProviderView::Conda(p@),
            Provider::Rye(p) => ProviderView::Rye(p@),
        }
    }
}

/// The provider of this name in this environment: for `path`, `conda` and
/// `rye` what the environment allows, and none for any other name. A
/// provider whose prerequisites the environment lacks is none.
pub open spec fn provider_named(name: Seq<char>, environment: EnvironmentView) -> Option<
    ProviderView,
> {
    if name == "path"@ {
        Some(ProviderView::Path(path_provider(environment)))
    } else if name == "conda"@ {
        match conda_provider(environment) {
            Some(roots) => Some(ProviderView::Conda(roots)),
            None => None,
        }
    } else if name == "rye"@ {
        match rye_provider(environment) {
            Some(root) => Some(ProviderView::Rye(root)),
            None => None,
        }
    } else {
        None
    }
}

/// The names of the providers, in the order in which they are asked.
pub fn all_providers() -> (names: Vec<String>)
    ensures
        string_views(names@) == seq!["path"@, "conda"@, "rye"@],
{
    let mut names: Vec<String> = Vec::new();
    names.push("path".to_owned());
    names.push("conda".to_owned());
    names.push("rye".to_owned());
    proof {
        assert(string_views(names@) =~= seq!["path"@, "conda"@, "rye"@]);
    }
    names
}

/// The provider of this name, where the environment has what it needs.
pub fn get_provider(name: &str, environment: &Environment) -> (r: Option<Provider>)
    ensures
        match r {
            Some(provider) => provider_named(name@, environment@) == Some(provider@),
            None => provider_named(name@, environment@) is None,
        },
{
    let wanted = chars_of(name);
    if same_chars(&wanted, &chars_of("path")) {
        match PathProvider::create(environment) {
            Some(p) => Some(Provider::Path(p)),
            None => None,
        }
    } else if same_chars(&wanted, &chars_of("conda")) {
        match CondaProvider::create(environment) {
            Some(p) => Some(Provider::Conda(p)),
            None => None,
        }
    } else if same_chars(&wanted, &chars_of("rye")) {
        match RyeProvider::create(environment) {
            Some(p) => Some(Provider::Rye(p)),
            None => None,
        }
    } else {
        None
    }
}

} // verus!
