//! The provider that looks through the toolchains of Rye.

use crate::python::providers::{
    join_path, joined, python_views, DirEntry, Environment, EnvironmentView,
};
use crate::python::python::{fresh, Lazy, PythonVersion, PythonView};
use vstd::prelude::*;

verus! {

/// A provider that searches the toolchains that Rye installed.
#[derive(Clone, Debug, PartialEq, Eq)]
pub struct RyeProvider {
    pub root: String,
}

impl View for RyeProvider {
    type V = Seq<char>;

    open spec fn view(&self) -> Seq<char> {
        self.root@
    }
}

/// The directory of Rye's data: `RYE_ROOT`, or `.rye` in the home directory
/// where it is not set. Without either there is no provider.
pub open spec fn rye_provider(environment: EnvironmentView) -> Option<Seq<char>> {
    match environment.rye_root {
        Some(root) => Some(root),
        None => match environment.home_dir {
            Some(home) => Some(joined(home, ".rye"@)),
            None => None,
        },
    }
}

/// Where the interpreter of the toolchain in `directory` lies.
pub open spec fn toolchain_python(directory: Seq<char>) -> Seq<char> {
    joined(directory, "install/bin/python3"@)
}

/// An interpreter that a toolchain may hold.
#[derive(Clone, Debug, PartialEq, Eq)]
pub struct Toolchain {
    /// Where the interpreter lies if the toolchain holds one.
    pub python: String,
    /// Whether there is a file at that path; `false` until that was looked
    /// up.
    pub exists: bool,
}

/// Where the toolchains among the entries may hold an interpreter. An entry
/// that is a symbolic link is no toolchain.
pub open spec fn toolchains_in(entries: Seq<DirEntry>) -> Seq<Seq<char>>
    decreases entries.len(),
{
    if entries.len() == 0 {
        Seq::empty()
    } else {
        let head = toolchains_in(entries.drop_last());
        if entries.last().is_symlink {
            head
        } else {
            head.push(toolchain_python(entries.last().path@))
        }
    }
}

/// The paths of a sequence of toolchains.
pub open spec fn toolchain_paths(toolchains: Seq<Toolchain>) -> Seq<Seq<char>> {
    toolchains.map_values(|t: Toolchain| t.python@)
}

/// The candidate for an interpreter of Rye: it is the interpreter itself.
pub open spec fn rye_candidate(python: Seq<char>) -> PythonView {
    PythonView { interpreter: Lazy::Ready(python), ..fresh(python) }
}

/// The candidates for the toolchains that hold an interpreter.
pub open spec fn pythons_in_toolchains(toolchains: Seq<Toolchain>) -> Seq<PythonView>
    decreases toolchains.len(),
{
    if toolchains.len() == 0 {
        Seq::empty()
    } else {
        let head = pythons_in_toolchains(toolchains.drop_last());
        if toolchains.last().exists {
            head.push(rye_candidate(toolchains.last().python@))
        } else {
            head
        }
    }
}

impl RyeProvider {
    /// A provider that searches the toolchains below this root.
    pub fn new(root: String) -> (r: RyeProvider)
        ensures
            r@ == root@,
    {
        RyeProvider { root }
    }

    /// The provider for an environment, where it names Rye's root or a home
    /// directory.
    pub fn create(environment: &Environment) -> (r: Option<RyeProvider>)
        ensures
            match r {
                Some(provider) => rye_provider(environment@) == Some(provider@),
                None => rye_provider(environment@) is None,
            },
    {
        match &environment.rye_root {
            Some(root) => Some(RyeProvider::new(root.clone())),
            None => match &environment.home_dir {
                Some(home) => Some(RyeProvider::new(join_path(home.as_str(), ".rye"))),
                None => None,
            },
        }
    }

    /// The directory that holds the toolchains.
    pub fn py_root(&self) -> (r: String)
        ensures
            r@ == joined(self@, "py"@),
    {
        join_path(self.root.as_str(), "py")
    }

    /// Where the toolchains may hold an interpreter. `listing` holds the
    /// entries of the toolchain directory, or `None` where it could not be
    /// read. Whether there is a file at each path is yet to be looked up.
    pub fn toolchains(listing: &Option<Vec<DirEntry>>) -> (found: Vec<Toolchain>)
        ensures
            toolchain_paths(found@) == match *listing {
                Some(entries) => toolchains_in(entries@),
                None => Seq::empty(),
            },
            forall|i: int| 0 <= i < found.len() ==> !(#[trigger] found[i]).exists,
    {
        let mut found: Vec<Toolchain> = Vec::new();
        proof {
            assert(toolchain_paths(found@) == Seq::<Seq<char>>::empty());
        }
        let entries = match listing {
            Some(entries) => entries,
            None => {
                return found;
            },
        };
        let mut i: usize = 0;
        proof {
            assert(entries@.take(0) == Seq::<DirEntry>::empty());
        }
        while i < entries.len()
            invariant
                i <= entries.len(),
                toolchain_paths(found@) == toolchains_in(entries@.take(i as int)),
                forall|j: int| 0 <= j < found.len() ==> !(#[trigger] found[j]).exists,
            decreases entries.len() - i,
        {
            let ghost before = toolchain_paths(found@);
            proof {
                assert(entries@.take(i + 1).drop_last() == entries@.take(i as int));
                assert(entries@.take(i + 1).last() == entries@[i as int]);
            }
            if !entries[i].is_symlink {
                let toolchain = Toolchain {
                    python: join_path(entries[i].path.as_str(), "install/bin/python3"),
                    exists: false,
                };
                let ghost path = toolchain.python@;
                found.push(toolchain);
                proof {
                    assert(toolchain_paths(found@) == before.push(path));
                }
            }
            i += 1;
        }
        proof {
            assert(entries@.take(entries.len() as int) == entries@);
        }
        found
    }

    /// The candidates for the toolchains that hold an interpreter.
    pub fn find_pythons(&self, toolchains: &Vec<Toolchain>) -> (found: Vec<PythonVersion>)
        ensures
            python_views(found@) == pythons_in_toolchains(toolchains@),
    {
        let mut found: Vec<PythonVersion> = Vec::new();
        let mut i: usize = 0;
        proof {
            assert(toolchains@.take(0) == Seq::<Toolchain>::empty());
            assert(python_views(found@) == Seq::<PythonView>::empty());
        }
        while i < toolchains.len()
            invariant
                i <= toolchains.len(),
                python_views(found@) == pythons_in_toolchains(toolchains@.take(i as int)),
            decreases toolchains.len() - i,
        {
            let ghost before = python_views(found@);
            proof {
                assert(toolchains@.take(i + 1).drop_last() == toolchains@.take(i as int));
                assert(toolchains@.take(i + 1).last() == toolchains@[i as int]);
            }
            if toolchains[i].exists {
                let python = PythonVersion::new(toolchains[i].python.clone()).with_interpreter(
                    toolchains[i].python.clone(),
                );
                let ghost view = python@;
                found.push(python);
                proof {
                    assert(python_views(found@) == before.push(view));
                }
            }
            i += 1;
        }
        proof {
            assert(toolchains@.take(toolchains.len() as int) == toolchains@);
        }
        found
    }
}

} // verus!
