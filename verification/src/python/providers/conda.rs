//! The provider that looks through the environments of Conda.

use crate::python::providers::{
    entries_view, find_pythons_from_path, join_path, joined, python_views, pythons_in,
    string_views, DirEntry, Environment, EnvironmentView,
};
use crate::python::python::{file_name, file_name_of, PythonVersion, PythonView};
use crate::text::{chars_of, string_of};
use vstd::prelude::*;

verus! {

/// A provider that searches the environments below Conda's roots.
#[derive(Clone, Debug, PartialEq, Eq)]
pub struct CondaProvider {
    pub roots: Vec<String>,
}

impl View for CondaProvider {
    type V = Seq<Seq<char>>;

    open spec fn view(&self) -> Seq<Seq<char>> {
        string_views(self.roots@)
    }
}

/// The directory `envs` of the Conda installation called `name` in `home`.
pub open spec fn environments_below(home: Seq<char>, name: Seq<char>) -> Seq<char> {
    joined(joined(home, name), "envs"@)
}

/// The roots that Conda's environments are looked for in: `CONDA_ROOT`, or
/// `.conda/envs` in the home directory where it is not set, and then the
/// `envs` of `miniconda3`, `anaconda3` and `conda` in the home directory.
/// Without a home directory there is no provider.
pub open spec fn conda_provider(environment: EnvironmentView) -> Option<Seq<Seq<char>>> {
    match environment.home_dir {
        Some(home) => Some(
            seq![
                match environment.conda_root {
                    Some(root) => root,
                    None => environments_below(home, ".conda"@),
                },
                environments_below(home, "miniconda3"@),
                environments_below(home, "anaconda3"@),
                environments_below(home, "conda"@),
            ],
        ),
        None => None,
    }
}

/// An environment of Conda.
#[derive(Clone, Debug, PartialEq, Eq)]
pub struct CondaEnvironment {
    /// The name of the environment: that of its directory.
    pub name: String,
    /// The directory that holds the environment's executables.
    pub bin: String,
    /// The entries of that directory, once it was listed; `None` before,
    /// and where it could not be read.
    pub listing: Option<Vec<DirEntry>>,
}

/// The environments in a root: one for each entry that is a directory,
/// named after it, with its executables in `bin`.
pub open spec fn environments_in(entries: Seq<DirEntry>) -> Seq<(Seq<char>, Seq<char>)>
    decreases entries.len(),
{
    if entries.len() == 0 {
        Seq::empty()
    } else {
        let head = environments_in(entries.drop_last());
        let last = entries.last();
        if last.is_dir {
            head.push((file_name(last.path@), joined(last.path@, "bin"@)))
        } else {
            head
        }
    }
}

/// The names and the executable directories of a sequence of environments.
pub open spec fn environment_views(environments: Seq<CondaEnvironment>) -> Seq<
    (Seq<char>, Seq<char>),
> {
    environments.map_values(|e: CondaEnvironment| (e.name@, e.bin@))
}

/// The name that candidates of the environment `name` go by.
pub open spec fn conda_label(name: Seq<char>) -> Seq<char> {
    "Conda '"@ + name + "'"@
}

/// The candidates with `label` as the name that people read.
pub open spec fn labelled(pythons: Seq<PythonView>, label: Seq<char>) -> Seq<PythonView> {
    pythons.map_values(|p: PythonView| PythonView { formatted_name: Some(label), ..p })
}

/// What the environments hold of interpreters, environment by environment,
/// each candidate under the name of its environment.
pub open spec fn pythons_in_environments(environments: Seq<CondaEnvironment>) -> Seq<PythonView>
    decreases environments.len(),
{
    if environments.len() == 0 {
        Seq::empty()
    } else {
        let last = environments.last();
        pythons_in_environments(environments.drop_last()) + labelled(
            pythons_in(entries_view(last.listing), true),
            conda_label(last.name@),
        )
    }
}

impl CondaProvider {
    /// A provider that searches the environments below these roots.
    pub fn new(roots: Vec<String>) -> (r: CondaProvider)
        ensures
            r@ == string_views(roots@),
    {
        CondaProvider { roots }
    }

    /// The provider for an environment, where it names a home directory.
    pub fn create(environment: &Environment) -> (r: Option<CondaProvider>)
        ensures
            match r {
                Some(provider) => conda_provider(environment@) == Some(provider@),
                None => conda_provider(environment@) is None,
            },
    {
        let home = match &environment.home_dir {
            Some(home) => home,
            None => {
                return None;
            },
        };
        let mut roots: Vec<String> = Vec::new();
        roots.push(
            match &environment.conda_root {
                Some(root) => root.clone(),
                None => join_path(join_path(home.as_str(), ".conda").as_str(), "envs"),
            },
        );
        roots.push(join_path(join_path(home.as_str(), "miniconda3").as_str(), "envs"));
        roots.push(join_path(join_path(home.as_str(), "anaconda3").as_str(), "envs"));
        roots.push(join_path(join_path(home.as_str(), "conda").as_str(), "envs"));
        proof {
            assert(string_views(roots@) =~= conda_provider(environment@).unwrap());
        }
        Some(CondaProvider::new(roots))
    }

    /// The environments in a root, of which `listing` holds the entries;
    /// none where the root could not be read. The executable directory of
    /// each is yet to be listed.
    pub fn environments(listing: &Option<Vec<DirEntry>>) -> (found: Vec<CondaEnvironment>)
        ensures
            environment_views(found@) == match *listing {
                Some(entries) => environments_in(entries@),
                None => Seq::empty(),
            },
            forall|i: int| 0 <= i < found.len() ==> (#[trigger] found[i]).listing is None,
    {
        let mut found: Vec<CondaEnvironment> = Vec::new();
        proof {
            assert(environment_views(found@) == Seq::<(Seq<char>, Seq<char>)>::empty());
        }
        let entries = match listing {
            Some(entries) => entries,
            None => {
                return found;
            },
        };
        let mut i: usize = 0;
        proof {
            assert(entries@.take(0) == Seq::<DirEntry>::empty());
        }
        while i < entries.len()
            invariant
                i <= entries.len(),
                environment_views(found@) == environments_in(entries@.take(i as int)),
                forall|j: int| 0 <= j < found.len() ==> (#[trigger] found[j]).listing is None,
            decreases entries.len() - i,
        {
            let ghost before = environment_views(found@);
            proof {
                assert(entries@.take(i + 1).drop_last() == entries@.take(i as int));
                assert(entries@.take(i + 1).last() == entries@[i as int]);
            }
            if entries[i].is_dir {
                let path = entries[i].path.as_str();
                let environment = CondaEnvironment {
                    name: string_of(&file_name_of(&chars_of(path))),
                    bin: join_path(path, "bin"),
                    listing: None,
                };
                let ghost view = (environment.name@, environment.bin@);
                found.push(environment);
                proof {
                    assert(environment_views(found@) == before.push(view));
                }
            }
            i += 1;
        }
        proof {
            assert(entries@.take(entries.len() as int) == entries@);
        }
        found
    }

    /// What the environments hold of interpreters. Each candidate is the
    /// interpreter itself and goes by the name of its environment.
    pub fn find_pythons(&self, environments: &Vec<CondaEnvironment>) -> (found: Vec<PythonVersion>)
        ensures
            python_views(found@) == pythons_in_environments(environments@),
    {
        let mut found: Vec<PythonVersion> = Vec::new();
        let mut i: usize = 0;
        proof {
            assert(environments@.take(0) == Seq::<CondaEnvironment>::empty());
            assert(python_views(found@) == Seq::<PythonView>::empty());
        }
        while i < environments.len()
            invariant
                i <= environments.len(),
                python_views(found@) == pythons_in_environments(environments@.take(i as int)),
            decreases environments.len() - i,
        {
            let ghost before = python_views(found@);
            proof {
                assert(environments@.take(i + 1).drop_last() == environments@.take(i as int));
                assert(environments@.take(i + 1).last() == environments@[i as int]);
            }
            let environment = &environments[i];
            let mut here = find_pythons_from_path(&environment.listing, true);
            let ghost plain = python_views(here@);
            let mut label = "Conda '".to_owned();
            label.append(environment.name.as_str());
            label.append("'");
            let mut j: usize = 0;
            while j < here.len()
                invariant
                    j <= here.len(),
                    here.len() == plain.len(),
                    label@ == conda_label(environment.name@),
                    forall|k: int|
                        0 <= k < j ==> (#[trigger] here@[k])@ == (PythonView {
                            formatted_name: Some(label@),
                            ..plain[k]
                        }),
                    forall|k: int| j <= k < here.len() ==> (#[trigger] here@[k])@ == plain[k],
                decreases here.len() - j,
            {
                let mut python = here.remove(j);
                python.formatted_name = Some(label.clone());
                here.insert(j, python);
                j += 1;
            }
            proof {
                assert(python_views(here@) =~= labelled(plain, conda_label(environment.name@)));
            }
            let ghost added = python_views(here@);
            found.append(&mut here);
            proof {
                assert(python_views(found@) == before + added);
            }
            i += 1;
        }
        proof {
            assert(environments@.take(environments.len() as int) == environments@);
        }
        found
    }
}

} // verus!
