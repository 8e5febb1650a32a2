//! The provider that looks through the directories of the search path.

use crate::python::providers::{
    entries_view, find_pythons_from_path, python_views, pythons_in, string_views, DirEntry,
    Environment, EnvironmentView,
};
use crate::python::python::{PythonVersion, PythonView};
use vstd::prelude::*;

verus! {

/// A provider that searches Python interpreters in the search path.
#[derive(Clone, Debug, PartialEq, Eq)]
pub struct PathProvider {
    pub paths: Vec<String>,
}

impl View for PathProvider {
    type V = Seq<Seq<char>>;

    open spec fn view(&self) -> Seq<Seq<char>> {
        string_views(self.paths@)
    }
}

/// The provider for an environment: it searches the directories of the
/// search path, which may be none.
pub open spec fn path_provider(environment: EnvironmentView) -> Seq<Seq<char>> {
    environment.path_entries
}

/// What the listed directories hold of interpreters, directory by
/// directory.
pub open spec fn pythons_on_path(listings: Seq<Option<Vec<DirEntry>>>) -> Seq<PythonView>
    decreases listings.len(),
{
    if listings.len() == 0 {
        Seq::empty()
    } else {
        pythons_on_path(listings.drop_last()) + pythons_in(entries_view(listings.last()), false)
    }
}

/// A copy of a vector of strings.
pub fn copy_strings(strings: &Vec<String>) -> (out: Vec<String>)
    ensures
        string_views(out@) == string_views(strings@),
{
    let mut out: Vec<String> = Vec::new();
    let mut i: usize = 0;
    while i < strings.len()
        invariant
            i <= strings.len(),
            out.len() == i,
            forall|j: int| 0 <= j < i ==> out@[j]@ == strings@[j]@,
        decreases strings.len() - i,
    {
        out.push(strings[i].clone());
        i += 1;
    }
    proof {
        assert(string_views(out@) =~= string_views(strings@));
    }
    out
}

impl PathProvider {
    /// A provider that searches these directories.
    pub fn new(paths: Vec<String>) -> (r: PathProvider)
        ensures
            r@ == string_views(paths@),
    {
        PathProvider { paths }
    }

    /// The provider for an environment. There always is one.
    pub fn create(environment: &Environment) -> (r: Option<PathProvider>)
        ensures
            r matches Some(provider) && provider@ == path_provider(environment@),
    {
        Some(PathProvider::new(copy_strings(&environment.path_entries)))
    }

    /// What the directories of the search path hold of interpreters.
    /// `listings` holds, for each directory in turn, its entries, or `None`
    /// where it could not be read.
    pub fn find_pythons(&self, listings: &Vec<Option<Vec<DirEntry>>>) -> (found: Vec<
        PythonVersion,
    >)
        ensures
            python_views(found@) == pythons_on_path(listings@),
    {
        let mut found: Vec<PythonVersion> = Vec::new();
        let mut i: usize = 0;
        proof {
            assert(listings@.take(0) == Seq::<Option<Vec<DirEntry>>>::empty());
            assert(python_views(found@) == Seq::<PythonView>::empty());
        }
        while i < listings.len()
            invariant
                i <= listings.len(),
                python_views(found@) == pythons_on_path(listings@.take(i as int)),
            decreases listings.len() - i,
        {
            let ghost before = python_views(found@);
            proof {
                assert(listings@.take(i + 1).drop_last() == listings@.take(i as int));
                assert(listings@.take(i + 1).last() == listings@[i as int]);
            }
            let mut here = find_pythons_from_path(&listings[i], false);
            let ghost added = python_views(here@);
            found.append(&mut here);
            proof {
                assert(python_views(found@) == before + added);
            }
            i += 1;
        }
        proof {
            assert(listings@.take(listings.len() as int) == listings@);
        }
        found
    }
}

} // verus!
