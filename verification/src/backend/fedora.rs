//! The Fedora backend (`dnf`).

use vstd::prelude::*;
use crate::backend::{
    Switches, Text, add_groups, command, if_set, info_command, load_section, push_switches,
    push_word, strings_view, words,
};
use crate::group::{Group, groups_view};
use crate::package::{Package, PackageView, distinct_packages, package_display, packages_of, packages_view};

verus! {

/// The Fedora backend and its managed packages.
#[derive(Debug)]
pub struct Fedora {
    pub packages: Vec<Package>,
}

pub const BINARY: Text = "dnf";
pub const SECTION: Text = "fedora";
pub const SUPPORTS_AS_DEPENDENCY: bool = true;

/// The arguments that name the packages to install: each name, followed by
/// `--repo` and its repository where it has one.
pub open spec fn fedora_package_args(ps: Seq<PackageView>) -> Seq<Seq<char>>
    decreases ps.len(),
{
    if ps.len() == 0 {
        seq![]
    } else {
        fedora_package_args(ps.drop_last()) + seq![ps.last().0] + match ps.last().1 {
            Some(r) => seq!["--repo"@, r],
            None => seq![],
        }
    }
}

/// The names of packages.
pub open spec fn package_names(ps: Seq<PackageView>) -> Seq<Seq<char>> {
    ps.map_values(|p: PackageView| p.0)
}

impl Fedora {
    /// The backend with no packages.
    pub fn new() -> (r: Self)
        ensures
            r.packages@.len() == 0,
    {
        Self { packages: Vec::new() }
    }

    /// The binary to run.
    pub fn get_binary(&self) -> (r: Text)
        ensures
            r@ == "dnf"@,
    {
        BINARY
    }

    /// The section of group files that this backend reads.
    pub fn get_section(&self) -> (r: Text)
        ensures
            r@ == "fedora"@,
    {
        SECTION
    }

    /// The switches that list the installed packages as `repo/name`.
    pub fn get_switches_info(&self) -> (r: Switches)
        ensures
            words(r@) == seq!["repoquery"@, "--installed"@, "--queryformat"@, "%{from_repo}/%{name}"@],
    {
        &["repoquery", "--installed", "--queryformat", "%{from_repo}/%{name}"]
    }

    /// The switches that install packages.
    pub fn get_switches_install(&self) -> (r: Switches)
        ensures
            words(r@) == seq!["install"@],
    {
        &["install"]
    }

    /// The switches that mark packages as dependencies (none).
    pub fn get_switches_make_dependency(&self) -> (r: Switches)
        ensures
            words(r@) == Seq::<Seq<char>>::empty(),
    {
        &[]
    }

    /// The switches that skip confirmation.
    pub fn get_switches_noconfirm(&self) -> (r: Switches)
        ensures
            words(r@) == seq!["--assumeyes"@],
    {
        &["--assumeyes"]
    }

    /// The switches that remove packages.
    pub fn get_switches_remove(&self) -> (r: Switches)
        ensures
            words(r@) == seq!["remove"@],
    {
        &["remove"]
    }

    /// Whether packages can be marked as dependencies.
    pub fn supports_as_dependency(&self) -> (r: bool)
        ensures
            r,
    {
        SUPPORTS_AS_DEPENDENCY
    }

    /// Add the packages of the `fedora` section of every group to the
    /// managed packages.
    pub fn load(&mut self, groups: &Vec<Group>)
        requires
            distinct_packages(packages_view(old(self).packages@)),
        ensures
            packages_view(final(self).packages@) == add_groups(packages_view(old(self).packages@), groups_view(groups@), "fedora"@),
    {
        load_section(&mut self.packages, groups, SECTION);
    }

    /// The installed packages, from the output of the query command: the
    /// package that each line declares, each package once.
    pub fn get_all_installed_packages(&self, output: &str) -> (r: Vec<Package>)
        ensures
            packages_view(r@) == packages_of(crate::text::lines_of(output@)),
    {
        crate::backend::packages_from_output(output)
    }

    /// The explicitly installed packages, from the output of the query for
    /// user-installed packages.
    pub fn get_explicitly_installed_packages(&self, output: &str) -> (r: Vec<Package>)
        ensures
            packages_view(r@) == packages_of(crate::text::lines_of(output@)),
    {
        crate::backend::packages_from_output(output)
    }

    /// The command that installs `packages`: `sudo dnf install`, the
    /// confirmation switch where asked for, each package name with its
    /// repository, and the `updates` and `fedora` repositories.
    pub fn install_packages(&self, packages: &[Package], noconfirm: bool) -> (r: Vec<String>)
        ensures
            strings_view(r@) == seq!["sudo"@, "dnf"@, "install"@] + if_set(noconfirm, seq!["--assumeyes"@])
                + fedora_package_args(packages_view(packages@)) + seq![
                "--repo"@,
                "updates"@,
                "--repo"@,
                "fedora"@,
            ],
    {
        let mut cmd = command("sudo");
        push_word(&mut cmd, self.get_binary());
        push_switches(&mut cmd, self.get_switches_install());
        let ghost mid = strings_view(cmd@);
        if noconfirm {
            push_switches(&mut cmd, self.get_switches_noconfirm());
        } else {
            proof {
                assert(mid =~= mid + Seq::<Seq<char>>::empty());
            }
        }
        let ghost start = strings_view(cmd@);
        let ghost pv = packages_view(packages@);
        let mut i: usize = 0;
        proof {
            assert(pv.take(0) =~= Seq::<PackageView>::empty());
            assert(start =~= start + fedora_package_args(pv.take(0)));
        }
        while i < packages.len()
            invariant
                i <= packages@.len(),
                pv == packages_view(packages@),
                strings_view(cmd@) == start + fedora_package_args(pv.take(i as int)),
            decreases packages.len() - i,
        {
            let ghost before = strings_view(cmd@);
            push_word(&mut cmd, packages[i].name.as_str());
            match &packages[i].repo {
                Some(repo) => {
                    push_word(&mut cmd, "--repo");
                    push_word(&mut cmd, repo.as_str());
                    proof {
                        assert(strings_view(cmd@) =~= before + seq![pv[i as int].0] + seq!["--repo"@, repo@]);
                    }
                },
                None => {
                    proof {
                        assert(strings_view(cmd@) =~= before + seq![pv[i as int].0] + Seq::<Seq<char>>::empty());
                    }
                },
            }
            proof {
                assert(pv.take(i + 1).drop_last() =~= pv.take(i as int));
                assert(pv.take(i + 1).last() == packages@[i as int]@);
            }
            i = i + 1;
        }
        proof {
            assert(pv.take(pv.len() as int) =~= pv);
        }
        push_word(&mut cmd, "--repo");
        push_word(&mut cmd, "updates");
        push_word(&mut cmd, "--repo");
        push_word(&mut cmd, "fedora");
        cmd
    }

    /// The command that removes `packages`: `sudo dnf remove`, the
    /// confirmation switch where asked for, and the package names.
    pub fn remove_packages(&self, packages: &[Package], noconfirm: bool) -> (r: Vec<String>)
        ensures
            strings_view(r@) == seq!["sudo"@, "dnf"@, "remove"@] + if_set(noconfirm, seq!["--assumeyes"@])
                + package_names(packages_view(packages@)),
    {
        let mut cmd = command("sudo");
        push_word(&mut cmd, self.get_binary());
        push_switches(&mut cmd, self.get_switches_remove());
        let ghost mid = strings_view(cmd@);
        if noconfirm {
            push_switches(&mut cmd, self.get_switches_noconfirm());
        } else {
            proof {
                assert(mid =~= mid + Seq::<Seq<char>>::empty());
            }
        }
        let ghost start = strings_view(cmd@);
        let ghost pv = packages_view(packages@);
        let mut i: usize = 0;
        proof {
            assert(package_names(pv).take(0) =~= Seq::<Seq<char>>::empty());
            assert(start =~= start + package_names(pv).take(0));
        }
        while i < packages.len()
            invariant
                i <= packages@.len(),
                pv == packages_view(packages@),
                strings_view(cmd@) == start + package_names(pv).take(i as int),
            decreases packages.len() - i,
        {
            push_word(&mut cmd, packages[i].name.as_str());
            proof {
                assert(package_names(pv).take(i + 1) =~= package_names(pv).take(i as int).push(packages@[i as int].name@));
            }
            i = i + 1;
        }
        proof {
            assert(package_names(pv).take(pv.len() as int) =~= package_names(pv));
        }
        cmd
    }

    /// The command that shows information on `package`.
    pub fn show_package_info(&self, package: &Package) -> (r: Vec<String>)
        ensures
            strings_view(r@) == seq!["dnf"@, "repoquery"@, "--installed"@, "--queryformat"@, "%{from_repo}/%{name}"@,
                package_display(package@)],
    {
        info_command(self.get_binary(), self.get_switches_info(), package)
    }
}

} // verus!
