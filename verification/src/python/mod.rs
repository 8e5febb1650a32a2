//! Python interpreters: candidates found on the host, matched against a
//! query, de-duplicated and ranked.

pub mod finder;
pub mod providers;
pub mod python;

pub use finder::MatchOptions;

use crate::python::finder::{deduplicated, matching, plain_finder, text_view, Finder};
use crate::python::providers::python_views;
use crate::python::python::{Lazy, PythonVersion, PythonView};
use vstd::prelude::*;

verus! {

/// What is reported of an interpreter that was found.
#[derive(Debug, Clone, PartialEq, Eq)]
pub struct Version {
    /// The path of the executable.
    pub executable: String,
    /// The name that the provider gave the candidate.
    pub formatted_name: Option<String>,
    /// The version in its normal writing; `None` where it is not known.
    pub version: Option<String>,
}

/// A [`Version`] as the contracts see it.
pub ghost struct VersionView {
    pub executable: Seq<char>,
    pub formatted_name: Option<Seq<char>>,
    pub version: Option<Seq<char>>,
}

impl View for Version {
    type V = VersionView;

    open spec fn view(&self) -> VersionView {
        VersionView {
            executable: self.executable@,
            formatted_name: text_view(self.formatted_name),
            version: text_view(self.version),
        }
    }
}

/// The views of a sequence of reports.
pub open spec fn version_views(versions: Seq<Version>) -> Seq<VersionView> {
    versions.map_values(|v: Version| v@)
}

/// What is reported of a candidate.
pub open spec fn reported(python: PythonView) -> VersionView {
    VersionView {
        executable: python.executable,
        formatted_name: python.formatted_name,
        version: match python.version {
            Lazy::Ready(version) => Some(version.text),
            _ => None,
        },
    }
}

/// Answers a query from the candidates that enumeration found: those that
/// have what the query asks for, one per path, the latest version first.
pub fn run(args: MatchOptions, pythons: Vec<PythonVersion>) -> (out: Vec<Version>)
    ensures
        version_views(out@) == deduplicated(
            plain_finder(),
            matching(args@, python_views(pythons@)),
        ).map_values(|p: PythonView| reported(p)),
{
    let finder = Finder::default();
    let found = finder.find_all(&args, pythons);
    let mut out: Vec<Version> = Vec::new();
    let mut i: usize = 0;
    while i < found.len()
        invariant
            i <= found.len(),
            out.len() == i,
            forall|j: int| 0 <= j < i ==> (#[trigger] out@[j])@ == reported(found@[j]@),
        decreases found.len() - i,
    {
        let python = &found[i];
        out.push(
            Version {
                executable: python.executable.clone(),
                formatted_name: match &python.formatted_name {
                    Some(name) => Some(name.clone()),
                    None => None,
                },
                version: match &python.version {
                    Lazy::Ready(version) => Some(version.text.clone()),
                    _ => None,
                },
            },
        );
        i += 1;
    }
    proof {
        assert(version_views(out@) =~= python_views(found@).map_values(
            |p: PythonView| reported(p),
        ));
    }
    out
}

} // verus!
