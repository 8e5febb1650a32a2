//! A Python interpreter found on the host, with what has been learned of it
//! so far.
//!
//! Three attributes of a candidate are learned late, by running the
//! interpreter: its version, the path of the interpreter it runs, and its
//! architecture. Each is held in a [`Lazy`] cell, which is filled once.

use crate::python::finder::{text_view, MatchOptions, MatchOptionsView};
use crate::text::{
    chars_of, same_chars, slice_of, split, split_on, string_of, texts, trim, trimmed,
};
use crate::version::{naturals, Version};
use std::str::FromStr;
use vstd::prelude::*;
use vstd::utf8::{encode_utf8, valid_utf8};

verus! {

/// Why an attribute could not be learned.
#[derive(Clone, Copy, Debug, PartialEq, Eq, Structural)]
pub enum Failure {
    /// The interpreter ended with this exit code, which is not zero; `-1`
    /// where it had none.
    NonZeroExit(i32),
    /// What the interpreter printed is not text.
    NotText,
    /// The interpreter did not end in time and was stopped.
    TimedOut,
    /// What the interpreter printed is no version.
    Unparsable,
}

/// An attribute that is learned at most once.
#[derive(Clone, Debug, PartialEq, Eq)]
pub enum Lazy<T> {
    /// Nobody has asked yet.
    Pending,
    /// The attribute is known.
    Ready(T),
    /// Learning it was tried and failed.
    Failed(Failure),
}

/// How the run of an interpreter ended.
#[derive(Clone, Debug, PartialEq, Eq)]
pub enum ProcessOutcome {
    /// It did not end within the time allowed, and was stopped.
    TimedOut,
    /// It ended by itself.
    Exited {
        /// Whether it reported success.
        success: bool,
        /// Its exit code, where it has one.
        code: Option<i32>,
        /// What it wrote to its standard output.
        stdout: Vec<u8>,
    },
}

/// The seconds an interpreter is given to print its version.
pub const GET_VERSION_TIMEOUT: u64 = 5;

/// Calls `String::from_utf8`. The standard library documents that it
/// succeeds exactly on valid UTF-8 and that the string then has these bytes.
#[verifier::external_body]
fn text_of_bytes(bytes: Vec<u8>) -> (r: Option<String>)
    ensures
        match r {
            Some(text) => valid_utf8(bytes@) && encode_utf8(text@) == bytes@,
            None => !valid_utf8(bytes@),
        },
{
    String::from_utf8(bytes).ok()
}

/// The exit code of a run, `-1` where it has none.
pub open spec fn exit_code(code: Option<i32>) -> i32 {
    match code {
        Some(c) => c,
        None => -1i32,
    }
}

/// What the run of a script gave: the text it printed, or why there is
/// none. A run that timed out, one that did not report success, and one
/// that printed something other than text each fail in their own way.
pub fn run_python_script(outcome: ProcessOutcome) -> (r: Result<String, Failure>)
    ensures
        match outcome {
            ProcessOutcome::TimedOut => r == Err::<String, Failure>(Failure::TimedOut),
            ProcessOutcome::Exited { success, code, stdout } => if !success {
                r == Err::<String, Failure>(Failure::NonZeroExit(exit_code(code)))
            } else if valid_utf8(stdout@) {
                r matches Ok(text) && encode_utf8(text@) == stdout@
            } else {
                r == Err::<String, Failure>(Failure::NotText)
            },
        },
{
    match outcome {
        ProcessOutcome::TimedOut => Err(Failure::TimedOut),
        ProcessOutcome::Exited { success, code, stdout } => {
            if !success {
                Err(
                    Failure::NonZeroExit(
                        match code {
                            Some(c) => c,
                            None => -1,
                        },
                    ),
                )
            } else {
                match text_of_bytes(stdout) {
                    Some(text) => Ok(text),
                    None => Err(Failure::NotText),
                }
            }
        },
    }
}

/// A version as PEP 440 reads it, with its normal writing.
#[derive(Clone, Debug, PartialEq, Eq)]
pub struct Pep440 {
    /// The release numbers and the pre-release and development marks.
    pub version: Version,
    /// The version in PEP 440's normal form.
    pub text: String,
}

/// A [`Pep440`] as the contracts see it.
pub ghost struct Pep440View {
    pub release: Seq<nat>,
    pub is_prerelease: bool,
    pub is_development: bool,
    pub text: Seq<char>,
}

impl View for Pep440 {
    type V = Pep440View;

    open spec fn view(&self) -> Pep440View {
        Pep440View {
            release: self.version.release(),
            is_prerelease: self.version.is_prerelease,
            is_development: self.version.is_development,
            text: self.text@,
        }
    }
}

/// What `pep440_rs` makes of a version text: the release numbers, whether
/// the version is a pre-release, whether it is a development release, and
/// its normal writing; `None` where the text is no version.
pub uninterp spec fn pep440_parse(text: Seq<char>) -> Option<(Seq<nat>, bool, bool, Seq<char>)>;

/// What [`pep440_parse`] gives, as a view.
pub open spec fn pep440_view(text: Seq<char>) -> Option<Pep440View> {
    match pep440_parse(text) {
        Some((release, is_prerelease, is_development, text)) => Some(
            Pep440View { release, is_prerelease, is_development, text },
        ),
        None => None,
    }
}

/// Parses with `pep440_rs::Version::from_str`. The result is trusted to
/// hold the parsed version's `release`, `is_pre()`, `is_dev()` and
/// `to_string()`, and to be `None` where `from_str` returns an error.
#[verifier::external_body]
fn parse_pep440(text: &str) -> (r: Option<Pep440>)
    ensures
        match r {
            Some(v) => pep440_parse(text@) == Some(
                (v@.release, v@.is_prerelease, v@.is_development, v@.text),
            ),
            None => pep440_parse(text@) is None,
        },
{
    match pep440_rs::Version::from_str(text) {
        Ok(parsed) => Some(
            Pep440 {
                version: Version {
                    components: parsed.release.iter().map(|n| *n as u64).collect(),
                    is_prerelease: parsed.is_pre(),
                    is_development: parsed.is_dev(),
                },
                text: parsed.to_string(),
            },
        ),
        Err(_) => None,
    }
}

/// The version in what an interpreter printed: the text without white space
/// around it, up to the first `+`.
pub open spec fn reported_version(output: Seq<char>) -> Seq<char> {
    split(trimmed(output), '+')[0]
}

/// Reads the version that an interpreter printed.
pub fn parse_version_output(output: &str) -> (r: Option<Pep440>)
    ensures
        match r {
            Some(v) => pep440_view(reported_version(output@)) == Some(v@),
            None => pep440_view(reported_version(output@)) is None,
        },
{
    let pieces = split_on(&trim(&chars_of(output)), '+');
    proof {
        assert(texts(pieces@)[0] == pieces@[0]@);
    }
    let version = string_of(&pieces[0]);
    parse_pep440(version.as_str())
}

/// The script that prints an interpreter's version.
pub const VERSION_SCRIPT: &'static str = "import platform; print(platform.python_version())";

/// The script that prints the path of the interpreter that runs.
pub const INTERPRETER_SCRIPT: &'static str = "import sys; print(sys.executable)";

/// The script that prints an interpreter's architecture.
pub const ARCHITECTURE_SCRIPT: &'static str = "import platform; print(platform.architecture()[0])";

/// An attribute that is learned by running the interpreter.
#[derive(Clone, Copy, Debug, PartialEq, Eq, Structural)]
pub enum Attribute {
    Version,
    Interpreter,
    Architecture,
}

/// A Python interpreter found on the host. Two candidates are equal where
/// they were found at the same path.
#[derive(Clone, Debug)]
pub struct PythonVersion {
    /// The path the interpreter was found at.
    pub executable: String,
    /// A name that the provider gives the candidate, for people to read.
    pub formatted_name: Option<String>,
    /// The version that the interpreter reports.
    pub version: Lazy<Pep440>,
    /// The path of the interpreter that runs behind the executable.
    pub interpreter: Lazy<String>,
    /// The architecture that the interpreter reports.
    pub architecture: Lazy<String>,
    /// The link itself identifies the candidate, not what it points to.
    pub keep_symlink: bool,
    /// The executable is a symbolic link.
    pub is_symlink: bool,
    /// The path of the file behind all links, where it could be had.
    pub real_path: Option<String>,
    /// A fingerprint of the file's bytes, where it could be had.
    pub content_hash: Option<String>,
}

/// A [`PythonVersion`] as the contracts see it.
pub ghost struct PythonView {
    pub executable: Seq<char>,
    pub formatted_name: Option<Seq<char>>,
    pub version: Lazy<Pep440View>,
    pub interpreter: Lazy<Seq<char>>,
    pub architecture: Lazy<Seq<char>>,
    pub keep_symlink: bool,
    pub is_symlink: bool,
    pub real_path: Option<Seq<char>>,
    pub content_hash: Option<Seq<char>>,
}

/// The view of a cell that holds a text.
pub open spec fn lazy_text(cell: Lazy<String>) -> Lazy<Seq<char>> {
    match cell {
        Lazy::Pending => Lazy::Pending,
        Lazy::Ready(text) => Lazy::Ready(text@),
        Lazy::Failed(failure) => Lazy::Failed(failure),
    }
}

/// The view of a cell that holds a version.
pub open spec fn lazy_version(cell: Lazy<Pep440>) -> Lazy<Pep440View> {
    match cell {
        Lazy::Pending => Lazy::Pending,
        Lazy::Ready(version) => Lazy::Ready(version@),
        Lazy::Failed(failure) => Lazy::Failed(failure),
    }
}

impl View for PythonVersion {
    type V = PythonView;

    open spec fn view(&self) -> PythonView {
        PythonView {
            executable: self.executable@,
            formatted_name: text_view(self.formatted_name),
            version: lazy_version(self.version),
            interpreter: lazy_text(self.interpreter),
            architecture: lazy_text(self.architecture),
            keep_symlink: self.keep_symlink,
            is_symlink: self.is_symlink,
            real_path: text_view(self.real_path),
            content_hash: text_view(self.content_hash),
        }
    }
}

impl PartialEq for PythonVersion {
    fn eq(&self, other: &PythonVersion) -> (r: bool) {
        self.executable == other.executable
    }
}

impl Eq for PythonVersion {

}

impl vstd::std_specs::cmp::PartialEqSpecImpl for PythonVersion {
    open spec fn obeys_eq_spec() -> bool {
        true
    }

    open spec fn eq_spec(&self, other: &PythonVersion) -> bool {
        self.executable@ == other.executable@
    }
}

/// A candidate of which nothing is known but its path.
pub open spec fn fresh(executable: Seq<char>) -> PythonView {
    PythonView {
        executable,
        formatted_name: None,
        version: Lazy::Pending,
        interpreter: Lazy::Pending,
        architecture: Lazy::Pending,
        keep_symlink: false,
        is_symlink: false,
        real_path: None,
        content_hash: None,
    }
}

/// `c` parts the components of a path.
pub open spec fn is_separator(c: char) -> bool {
    c == '/' || c == '\\'
}

/// The last component of a path: what follows its last separator.
pub open spec fn file_name(path: Seq<char>) -> Seq<char>
    decreases path.len(),
{
    if path.len() == 0 || is_separator(path.last()) {
        Seq::empty()
    } else {
        file_name(path.drop_last()).push(path.last())
    }
}

/// The last component of a path.
pub fn file_name_of(path: &Vec<char>) -> (name: Vec<char>)
    ensures
        name@ == file_name(path@),
{
    let mut start: usize = path.len();
    proof {
        assert(path@.subrange(start as int, path.len() as int) == Seq::<char>::empty());
        assert(path@.take(path.len() as int) == path@);
    }
    while start > 0 && !(path[start - 1] == '/' || path[start - 1] == '\\')
        invariant
            start <= path.len(),
            file_name(path@) == file_name(path@.take(start as int)) + path@.subrange(
                start as int,
                path.len() as int,
            ),
        decreases start,
    {
        proof {
            let head = path@.take(start as int);
            assert(head.last() == path@[start - 1]);
            assert(head.drop_last() == path@.take(start - 1));
            assert(file_name(head.drop_last()).push(head.last()) + path@.subrange(
                start as int,
                path.len() as int,
            ) == file_name(head.drop_last()) + path@.subrange(start - 1, path.len() as int));
        }
        start -= 1;
    }
    proof {
        let head = path@.take(start as int);
        if start > 0 {
            assert(head.last() == path@[start - 1]);
        }
        assert(file_name(head) == Seq::<char>::empty());
        assert(Seq::<char>::empty() + path@.subrange(start as int, path.len() as int)
            == path@.subrange(start as int, path.len() as int));
    }
    slice_of(path, start, path.len())
}

/// Whether a query asks anything of the version.
pub open spec fn asks_version(options: MatchOptionsView) -> bool {
    options.major is Some || options.minor is Some || options.patch is Some || options.dev is Some
        || options.pre is Some
}

/// Whether a version has what a query asks of versions.
pub open spec fn version_admitted(version: Pep440View, options: MatchOptionsView) -> bool {
    &&& options.major matches Some(major) ==> version.release.len() > 0 && version.release[0]
        == major
    &&& options.minor matches Some(minor) ==> version.release.len() > 1 && version.release[1]
        == minor
    &&& options.patch matches Some(patch) ==> version.release.len() > 2 && version.release[2]
        == patch
    &&& options.dev matches Some(dev) ==> version.is_development == dev
    &&& options.pre matches Some(pre) ==> version.is_prerelease == pre
}

/// Whether the executable has the file name asked for.
pub open spec fn name_admitted(python: PythonView, options: MatchOptionsView) -> bool {
    options.name matches Some(name) ==> file_name(python.executable) == name
}

/// Whether the candidate is known to have the architecture asked for.
pub open spec fn architecture_admitted(python: PythonView, options: MatchOptionsView) -> bool {
    options.architecture matches Some(architecture) ==> python.architecture == Lazy::Ready(
        architecture,
    )
}

/// Whether the version of the candidate is known and has what the query
/// asks of versions.
pub open spec fn version_known_and_admitted(python: PythonView, options: MatchOptionsView) -> bool {
    match python.version {
        Lazy::Ready(version) => version_admitted(version, options),
        _ => false,
    }
}

/// Whether a candidate has everything a query asks for. What the query does
/// not ask is not looked at; an attribute that it asks about and that is not
/// known, whether pending or failed, makes the candidate fail.
pub open spec fn admitted(python: PythonView, options: MatchOptionsView) -> bool {
    &&& name_admitted(python, options)
    &&& architecture_admitted(python, options)
    &&& asks_version(options) ==> version_known_and_admitted(python, options)
}

/// The attribute that has to be learned next before the query can be
/// answered for the candidate: none where the file name already decides;
/// then the architecture, where the query asks for one; then the version,
/// where the query asks anything of it and the architecture did not decide.
pub open spec fn wanted(python: PythonView, options: MatchOptionsView) -> Option<Attribute> {
    if !name_admitted(python, options) {
        None
    } else if options.architecture is Some && python.architecture is Pending {
        Some(Attribute::Architecture)
    } else if !architecture_admitted(python, options) {
        None
    } else if asks_version(options) && python.version is Pending {
        Some(Attribute::Version)
    } else {
        None
    }
}

/// A cell as it may be later: filled once it was pending, else as it is.
pub open spec fn filled_from<T>(before: Lazy<T>, after: Lazy<T>) -> bool {
    before is Pending || after == before
}

/// The candidate `after` is the candidate `before` with more learned of it:
/// nothing changed but cells that were pending.
pub open spec fn learned_from(before: PythonView, after: PythonView) -> bool {
    &&& after.executable == before.executable
    &&& filled_from(before.version, after.version)
    &&& filled_from(before.interpreter, after.interpreter)
    &&& filled_from(before.architecture, after.architecture)
}

/// Once a query wants nothing more learned of a candidate, its answer
/// stands: whatever is learned of the candidate afterwards, the query admits
/// it as before.
pub proof fn lemma_answer_is_final(before: PythonView, after: PythonView, options: MatchOptionsView)
    requires
        wanted(before, options) is None,
        learned_from(before, after),
    ensures
        admitted(after, options) == admitted(before, options),
{
}

/// The cell for a version after a run of the version script.
pub open spec fn version_learned(outcome: Result<String, Failure>) -> Lazy<Pep440View> {
    match outcome {
        Ok(output) => match pep440_view(reported_version(output@)) {
            Some(version) => Lazy::Ready(version),
            None => Lazy::Failed(Failure::Unparsable),
        },
        Err(failure) => Lazy::Failed(failure),
    }
}

/// The cell for a text after a run of the script that prints it.
pub open spec fn text_learned(outcome: Result<String, Failure>) -> Lazy<Seq<char>> {
    match outcome {
        Ok(output) => Lazy::Ready(trimmed(output@)),
        Err(failure) => Lazy::Failed(failure),
    }
}

impl PythonVersion {
    /// A candidate of which nothing is known but its path.
    pub fn new(executable: String) -> (r: PythonVersion)
        ensures
            r@ == fresh(executable@),
    {
        PythonVersion {
            executable,
            formatted_name: None,
            version: Lazy::Pending,
            interpreter: Lazy::Pending,
            architecture: Lazy::Pending,
            keep_symlink: false,
            is_symlink: false,
            real_path: None,
            content_hash: None,
        }
    }

    /// The candidate with this version.
    pub fn with_version(self, version: Pep440) -> (r: PythonVersion)
        ensures
            r@ == (PythonView { version: Lazy::Ready(version@), ..self@ }),
    {
        PythonVersion { version: Lazy::Ready(version), ..self }
    }

    /// The candidate with this interpreter behind it.
    pub fn with_interpreter(self, interpreter: String) -> (r: PythonVersion)
        ensures
            r@ == (PythonView { interpreter: Lazy::Ready(interpreter@), ..self@ }),
    {
        PythonVersion { interpreter: Lazy::Ready(interpreter), ..self }
    }

    /// The candidate with this architecture.
    pub fn with_architecture(self, architecture: &str) -> (r: PythonVersion)
        ensures
            r@ == (PythonView { architecture: Lazy::Ready(architecture@), ..self@ }),
    {
        PythonVersion { architecture: Lazy::Ready(architecture.to_owned()), ..self }
    }

    /// The candidate, identified by the link itself or not.
    pub fn with_keep_symlink(self, keep_symlink: bool) -> (r: PythonVersion)
        ensures
            r@ == (PythonView { keep_symlink, ..self@ }),
    {
        PythonVersion { keep_symlink, ..self }
    }

    /// The candidate with what the file system says of its executable:
    /// whether it is a link, where the file behind it lies, and the
    /// fingerprint of that file.
    pub fn with_file_facts(
        self,
        is_symlink: bool,
        real_path: Option<String>,
        content_hash: Option<String>,
    ) -> (r: PythonVersion)
        ensures
            r@ == (PythonView {
                is_symlink,
                real_path: text_view(real_path),
                content_hash: text_view(content_hash),
                ..self@
            }),
    {
        PythonVersion { is_symlink, real_path, content_hash, ..self }
    }

    /// The path of the file behind all links; the path of the executable
    /// where that could not be had.
    pub fn real_path(&self) -> (r: String)
        ensures
            r@ == match self@.real_path {
                Some(path) => path,
                None => self@.executable,
            },
    {
        match &self.real_path {
            Some(path) => path.clone(),
            None => self.executable.clone(),
        }
    }

    /// Whether the version is known.
    pub fn is_valid(&self) -> (r: bool)
        ensures
            r == (self@.version is Ready),
    {
        match &self.version {
            Lazy::Ready(_) => true,
            _ => false,
        }
    }

    /// The version, where it is known.
    pub fn version(&self) -> (r: Option<&Pep440>)
        ensures
            match r {
                Some(version) => self@.version == Lazy::Ready(version@),
                None => !(self@.version is Ready),
            },
    {
        match &self.version {
            Lazy::Ready(version) => Some(version),
            _ => None,
        }
    }

    /// The interpreter behind the executable, where it is known.
    pub fn interpreter(&self) -> (r: Option<&String>)
        ensures
            match r {
                Some(interpreter) => self@.interpreter == Lazy::Ready(interpreter@),
                None => !(self@.interpreter is Ready),
            },
    {
        match &self.interpreter {
            Lazy::Ready(interpreter) => Some(interpreter),
            _ => None,
        }
    }

    /// The architecture, where it is known.
    pub fn architecture(&self) -> (r: Option<&String>)
        ensures
            match r {
                Some(architecture) => self@.architecture == Lazy::Ready(architecture@),
                None => !(self@.architecture is Ready),
            },
    {
        match &self.architecture {
            Lazy::Ready(architecture) => Some(architecture),
            _ => None,
        }
    }

    /// The fingerprint of the executable's bytes, where it is known.
    pub fn content_hash(&self) -> (r: Option<&String>)
        ensures
            match r {
                Some(hash) => self@.content_hash == Some(hash@),
                None => self@.content_hash is None,
            },
    {
        match &self.content_hash {
            Some(hash) => Some(hash),
            None => None,
        }
    }

    /// Records how the version script ran. A version that was learned
    /// before, or failed before, stays as it is.
    pub fn resolve_version(&mut self, outcome: Result<String, Failure>)
        ensures
            final(self)@ == (PythonView {
                version: if old(self)@.version is Pending {
                    version_learned(outcome)
                } else {
                    old(self)@.version
                },
                ..old(self)@
            }),
    {
        if let Lazy::Pending = &self.version {
            self.version = match outcome {
                Ok(output) => match parse_version_output(output.as_str()) {
                    Some(version) => Lazy::Ready(version),
                    None => Lazy::Failed(Failure::Unparsable),
                },
                Err(failure) => Lazy::Failed(failure),
            };
        }
    }

    /// Records how the interpreter script ran. An interpreter that was
    /// learned before, or failed before, stays as it is.
    pub fn resolve_interpreter(&mut self, outcome: Result<String, Failure>)
        ensures
            final(self)@ == (PythonView {
                interpreter: if old(self)@.interpreter is Pending {
                    text_learned(outcome)
                } else {
                    old(self)@.interpreter
                },
                ..old(self)@
            }),
    {
        if let Lazy::Pending = &self.interpreter {
            self.interpreter = match outcome {
                Ok(output) => Lazy::Ready(string_of(&trim(&chars_of(output.as_str())))),
                Err(failure) => Lazy::Failed(failure),
            };
        }
    }

    /// Records how the architecture script ran. An architecture that was
    /// learned before, or failed before, stays as it is.
    pub fn resolve_architecture(&mut self, outcome: Result<String, Failure>)
        ensures
            final(self)@ == (PythonView {
                architecture: if old(self)@.architecture is Pending {
                    text_learned(outcome)
                } else {
                    old(self)@.architecture
                },
                ..old(self)@
            }),
    {
        if let Lazy::Pending = &self.architecture {
            self.architecture = match outcome {
                Ok(output) => Lazy::Ready(string_of(&trim(&chars_of(output.as_str())))),
                Err(failure) => Lazy::Failed(failure),
            };
        }
    }

    /// Whether the executable has the file name that the query asks for.
    fn name_matches(&self, options: &MatchOptions) -> (r: bool)
        ensures
            r == name_admitted(self@, options@),
    {
        match &options.name {
            Some(name) => {
                let found = file_name_of(&chars_of(self.executable.as_str()));
                same_chars(&found, &chars_of(name.as_str()))
            },
            None => true,
        }
    }

    /// Whether the candidate is known to have the architecture that the
    /// query asks for.
    fn architecture_matches(&self, options: &MatchOptions) -> (r: bool)
        ensures
            r == architecture_admitted(self@, options@),
    {
        match &options.architecture {
            Some(architecture) => match &self.architecture {
                Lazy::Ready(found) => *found == *architecture,
                _ => false,
            },
            None => true,
        }
    }

    /// The attribute to learn next before the query can be answered.
    pub fn pending(&self, options: &MatchOptions) -> (r: Option<Attribute>)
        ensures
            r == wanted(self@, options@),
    {
        if !self.name_matches(options) {
            return None;
        }
        if options.architecture.is_some() {
            if let Lazy::Pending = &self.architecture {
                return Some(Attribute::Architecture);
            }
        }
        if !self.architecture_matches(options) {
            return None;
        }
        let asks = options.major.is_some() || options.minor.is_some() || options.patch.is_some()
            || options.dev.is_some() || options.pre.is_some();
        if asks {
            if let Lazy::Pending = &self.version {
                return Some(Attribute::Version);
            }
        }
        None
    }

    /// Whether the candidate has everything the query asks for.
    pub fn matches(&self, options: &MatchOptions) -> (r: bool)
        ensures
            r == admitted(self@, options@),
    {
        if !self.name_matches(options) {
            return false;
        }
        if !self.architecture_matches(options) {
            return false;
        }
        let asks = options.major.is_some() || options.minor.is_some() || options.patch.is_some()
            || options.dev.is_some() || options.pre.is_some();
        if !asks {
            return true;
        }
        let version = match &self.version {
            Lazy::Ready(version) => &version.version,
            _ => {
                return false;
            },
        };
        let release = &version.components;
        proof {
            assert(forall|i: int|
                0 <= i < release@.len() ==> naturals(release@)[i] == release@[i] as nat);
        }
        if let Some(major) = options.major {
            if release.len() < 1 || release[0] != major as u64 {
                return false;
            }
        }
        if let Some(minor) = options.minor {
            if release.len() < 2 || release[1] != minor as u64 {
                return false;
            }
        }
        if let Some(patch) = options.patch {
            if release.len() < 3 || release[2] != patch as u64 {
                return false;
            }
        }
        if let Some(dev) = options.dev {
            if version.is_development != dev {
                return false;
            }
        }
        if let Some(pre) = options.pre {
            if version.is_prerelease != pre {
                return false;
            }
        }
        true
    }

    /// The candidate in one line: the file name, the version or `INVALID`,
    /// and the path.
    pub fn to_string(&self) -> (r: String)
        ensures
            r@ == file_name(self@.executable) + " "@ + match self@.version {
                Lazy::Ready(version) => version.text,
                _ => "INVALID"@,
            } + " @ "@ + self@.executable,
    {
        let mut line = string_of(&file_name_of(&chars_of(self.executable.as_str())));
        line.append(" ");
        match &self.version {
            Lazy::Ready(version) => line.append(version.text.as_str()),
            _ => line.append("INVALID"),
        }
        line.append(" @ ");
        line.append(self.executable.as_str());
        line
    }
}

} // verus!
