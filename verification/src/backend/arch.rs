//! The Arch Linux backend (`pacman` or an AUR helper).

use vstd::prelude::*;
use crate::backend::{
    Switches, Text, add_groups, command, load_section, package_args, push_packages, push_strings,
    push_switches, strings_view, words,
};
use crate::group::{Group, groups_view};
use crate::package::{Package, distinct_packages, packages_view};

verus! {

/// The Arch Linux backend: the binary to run, additional arguments for
/// removal, and the managed packages.
#[derive(Debug)]
pub struct Arch {
    pub binary: String,
    pub aur_rm_args: Option<Vec<String>>,
    pub packages: Vec<Package>,
}

/// The binary that the backend runs unless configured otherwise.
pub const BINARY: Text = "pacman";

/// The section of group files that the backend reads.
pub const SECTION: Text = "arch";

impl Arch {
    /// The backend with `pacman` as binary, no additional removal
    /// arguments and no packages.
    pub fn new() -> (r: Self)
        ensures
            r.binary@ == "pacman"@,
            r.aur_rm_args is None,
            r.packages@.len() == 0,
    {
        Self { binary: BINARY.to_owned(), aur_rm_args: None, packages: Vec::new() }
    }

    /// The binary to run.
    pub fn get_binary(&self) -> (r: &str)
        ensures
            r@ == self.binary@,
    {
        self.binary.as_str()
    }

    /// The section of group files that this backend reads.
    pub fn get_section(&self) -> (r: Text)
        ensures
            r@ == "arch"@,
    {
        SECTION
    }

    /// The switches that show information on packages.
    pub fn get_switches_info(&self) -> (r: Switches)
        ensures
            words(r@) == seq!["--query"@, "--info"@],
    {
        &["--query", "--info"]
    }

    /// The switches that install packages.
    pub fn get_switches_install(&self) -> (r: Switches)
        ensures
            words(r@) == seq!["--sync"@],
    {
        &["--sync"]
    }

    /// The switches that mark packages as dependencies.
    pub fn get_switches_make_dependency(&self) -> (r: Switches)
        ensures
            words(r@) == seq!["--database"@, "--asdeps"@],
    {
        &["--database", "--asdeps"]
    }

    /// The switches that remove packages.
    pub fn get_switches_remove(&self) -> (r: Switches)
        ensures
            words(r@) == seq!["--remove"@, "--recursive"@],
    {
        &["--remove", "--recursive"]
    }

    /// Add the packages of the `arch` section of every group to the managed
    /// packages.
    pub fn load(&mut self, groups: &Vec<Group>)
        requires
            distinct_packages(packages_view(old(self).packages@)),
        ensures
            packages_view(final(self).packages@) == add_groups(packages_view(old(self).packages@), groups_view(groups@), "arch"@),
            final(self).binary == old(self).binary,
            final(self).aur_rm_args == old(self).aur_rm_args,
    {
        load_section(&mut self.packages, groups, SECTION);
    }

    /// The command that installs `packages`: the binary, `--sync`, and the
    /// packages.
    pub fn install_packages(&self, packages: &[Package]) -> (r: Vec<String>)
        ensures
            strings_view(r@) == seq![self.binary@, "--sync"@] + package_args(packages_view(packages@)),
    {
        let mut cmd = command(self.binary.as_str());
        push_switches(&mut cmd, self.get_switches_install());
        push_packages(&mut cmd, packages);
        cmd
    }

    /// The command that removes `packages`: the binary, `--remove
    /// --recursive`, the additional removal arguments, and the packages.
    pub fn remove_packages(&self, packages: &[Package]) -> (r: Vec<String>)
        ensures
            strings_view(r@) == seq![self.binary@, "--remove"@, "--recursive"@] + (match self.aur_rm_args {
                Some(a) => strings_view(a@),
                None => seq![],
            }) + package_args(packages_view(packages@)),
    {
        let mut cmd = command(self.binary.as_str());
        push_switches(&mut cmd, self.get_switches_remove());
        let ghost mid = strings_view(cmd@);
        match &self.aur_rm_args {
            Some(a) => push_strings(&mut cmd, a),
            None => {
                proof {
                    assert(mid =~= mid + Seq::<Seq<char>>::empty());
                }
            },
        }
        push_packages(&mut cmd, packages);
        cmd
    }

    /// The command that marks `packages` as dependencies.
    pub fn make_dependency(&self, packages: &[Package]) -> (r: Vec<String>)
        ensures
            strings_view(r@) == seq![self.binary@, "--database"@, "--asdeps"@] + package_args(packages_view(packages@)),
    {
        let mut cmd = command(self.binary.as_str());
        push_switches(&mut cmd, self.get_switches_make_dependency());
        push_packages(&mut cmd, packages);
        cmd
    }

    /// The command that shows information on `package`.
    pub fn show_package_info(&self, package: &Package) -> (r: Vec<String>)
        ensures
            strings_view(r@) == seq![self.binary@, "--query"@, "--info"@, crate::package::package_display(package@)],
    {
        let mut cmd = command(self.binary.as_str());
        push_switches(&mut cmd, self.get_switches_info());
        let ghost before = cmd@;
        cmd.push(package.to_string());
        proof {
            assert(strings_view(cmd@) =~= strings_view(before).push(crate::package::package_display(package@)));
            assert(strings_view(cmd@) =~= seq![self.binary@, "--query"@, "--info"@, crate::package::package_display(package@)]);
        }
        cmd
    }
}

} // verus!
