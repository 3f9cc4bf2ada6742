//! `pip` as a backend of package identifiers.

use vstd::prelude::*;
use crate::backend::{command, push_strings, push_switches, strings_view};
use crate::backend::python::{json_list_names, list_names};
use crate::commands::{contains_name, holds_name, names_view};
use crate::packages::{ids_of, strictly_sorted, union_into};

verus! {

/// The `pip` backend.
#[derive(Debug, Clone, Copy)]
pub struct Pip;

/// What is known of an installed `pip` package: whether it was installed
/// explicitly, that is, no other package requires it.
#[derive(Debug, Clone, Copy)]
pub struct PipQueryInfo {
    pub explicit: bool,
}

impl Pip {
    /// The installed packages, from the names of all installed packages
    /// and of those that no other package requires (`pip list
    /// --not-required`): every package once, sorted; explicit where not
    /// among the latter.
    pub fn query_installed_packages(all: &Vec<String>, implicit: &Vec<String>) -> (r: Vec<(String, PipQueryInfo)>)
        ensures
            strictly_sorted(r@.map_values(|e: (String, PipQueryInfo)| e.0@)),
            r@.map_values(|e: (String, PipQueryInfo)| e.0@).to_set() == names_view(all@).to_set().union(
                names_view(implicit@).to_set(),
            ),
            forall|i: int| 0 <= i < r@.len() ==> (#[trigger] r@[i]).1.explicit == !holds_name(
                names_view(implicit@),
                r@[i].0@,
            ),
    {
        let mut keys: Vec<String> = Vec::new();
        proof {
            assert(ids_of(keys@) =~= Seq::<Seq<char>>::empty());
            assert(ids_of(keys@).to_set() =~= Set::<Seq<char>>::empty());
        }
        union_into(&mut keys, implicit);
        union_into(&mut keys, all);
        proof {
            assert(ids_of(implicit@) == names_view(implicit@));
            assert(ids_of(all@) == names_view(all@));
            assert(Set::<Seq<char>>::empty().union(names_view(implicit@).to_set()).union(names_view(all@).to_set())
                =~= names_view(all@).to_set().union(names_view(implicit@).to_set()));
        }
        let ghost kv = ids_of(keys@);
        let mut out: Vec<(String, PipQueryInfo)> = Vec::new();
        let mut i: usize = 0;
        while i < keys.len()
            invariant
                i <= keys@.len(),
                kv == ids_of(keys@),
                out@.map_values(|e: (String, PipQueryInfo)| e.0@) == kv.take(i as int),
                forall|k: int| 0 <= k < out@.len() ==> (#[trigger] out@[k]).1.explicit == !holds_name(
                    names_view(implicit@),
                    out@[k].0@,
                ),
            decreases keys.len() - i,
        {
            let explicit = !contains_name(implicit, keys[i].as_str());
            let ghost before = out@;
            out.push((keys[i].clone(), PipQueryInfo { explicit }));
            proof {
                assert(kv[i as int] == keys@[i as int]@);
                assert(out@.map_values(|e: (String, PipQueryInfo)| e.0@) =~= before.map_values(
                    |e: (String, PipQueryInfo)| e.0@,
                ).push(kv[i as int]));
                assert(kv.take(i + 1) =~= kv.take(i as int).push(kv[i as int]));
            }
            i = i + 1;
        }
        proof {
            assert(kv.take(kv.len() as int) =~= kv);
        }
        out
    }

    /// The command that installs `packages`.
    pub fn install_packages(packages: &Vec<String>) -> (r: Vec<String>)
        ensures
            strings_view(r@) == seq!["pip"@, "install"@] + strings_view(packages@),
    {
        let mut cmd = command("pip");
        push_switches(&mut cmd, &["install"]);
        push_strings(&mut cmd, packages);
        cmd
    }

    /// The command that removes `packages`.
    pub fn remove_packages(packages: &Vec<String>) -> (r: Vec<String>)
        ensures
            strings_view(r@) == seq!["pip"@, "uninstall"@] + strings_view(packages@),
    {
        let mut cmd = command("pip");
        push_switches(&mut cmd, &["uninstall"]);
        push_strings(&mut cmd, packages);
        cmd
    }
}

/// The names of the JSON list that `pip list --format json` prints, as a
/// sorted set; `None` where the text is not such a list.
pub fn extract_package_names(stdout: &str) -> (r: Option<Vec<String>>)
    ensures
        match json_list_names(stdout@) {
            Some(names) => r matches Some(v) && strictly_sorted(strings_view(v@)) && strings_view(v@).to_set()
                == names.to_set(),
            None => r is None,
        },
{
    match list_names(stdout) {
        Some(names) => {
            let mut out: Vec<String> = Vec::new();
            proof {
                assert(ids_of(out@) =~= Seq::<Seq<char>>::empty());
                assert(ids_of(out@).to_set() =~= Set::<Seq<char>>::empty());
            }
            union_into(&mut out, &names);
            proof {
                assert(ids_of(names@) == strings_view(names@));
                assert(ids_of(out@) == strings_view(out@));
                assert(Set::<Seq<char>>::empty().union(strings_view(names@).to_set()) =~= strings_view(names@).to_set());
            }
            Some(out)
        },
        None => None,
    }
}

} // verus!
