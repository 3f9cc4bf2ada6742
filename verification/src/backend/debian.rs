//! The Debian backend (`apt`).

use vstd::prelude::*;
use crate::backend::{
    Switches, Text, add_groups, if_set, info_command, load_section, package_args, package_command,
    strings_view, words,
};
use crate::group::{Group, groups_view};
use crate::package::{Package, distinct_packages, package_display, packages_view};

verus! {

/// The Debian backend and its managed packages.
#[derive(Debug)]
pub struct Debian {
    pub packages: Vec<Package>,
}

pub const BINARY: Text = "apt";
pub const SECTION: Text = "debian";
pub const SUPPORTS_AS_DEPENDENCY: bool = true;

impl Debian {
    /// The backend with no packages.
    pub fn new() -> (r: Self)
        ensures
            r.packages@.len() == 0,
    {
        Self { packages: Vec::new() }
    }

    /// The binary to run.
    pub fn get_binary(&self) -> (r: Text)
        ensures
            r@ == "apt"@,
    {
        BINARY
    }

    /// The section of group files that this backend reads.
    pub fn get_section(&self) -> (r: Text)
        ensures
            r@ == "debian"@,
    {
        SECTION
    }

    /// The switches that show information on packages.
    pub fn get_switches_info(&self) -> (r: Switches)
        ensures
            words(r@) == seq!["show"@],
    {
        &["show"]
    }

    /// The switches that install packages.
    pub fn get_switches_install(&self) -> (r: Switches)
        ensures
            words(r@) == seq!["install"@],
    {
        &["install"]
    }

    /// The switches that mark packages as dependencies (none are needed).
    pub fn get_switches_make_dependency(&self) -> (r: Switches)
        ensures
            words(r@) == Seq::<Seq<char>>::empty(),
    {
        &[]
    }

    /// The switches that skip confirmation.
    pub fn get_switches_noconfirm(&self) -> (r: Switches)
        ensures
            words(r@) == seq!["--yes"@],
    {
        &["--yes"]
    }

    /// The switches that remove packages.
    pub fn get_switches_remove(&self) -> (r: Switches)
        ensures
            words(r@) == seq!["remove"@],
    {
        &["remove"]
    }

    /// Whether packages can be marked as dependencies.
    pub fn supports_as_dependency(&self) -> (r: bool)
        ensures
            r,
    {
        SUPPORTS_AS_DEPENDENCY
    }

    /// Add the packages of the `debian` section of every group to the
    /// managed packages.
    pub fn load(&mut self, groups: &Vec<Group>)
        requires
            distinct_packages(packages_view(old(self).packages@)),
        ensures
            packages_view(final(self).packages@) == add_groups(packages_view(old(self).packages@), groups_view(groups@), "debian"@),
    {
        load_section(&mut self.packages, groups, SECTION);
    }

    /// The command that marks `packages` as automatically installed
    /// (`apt-mark auto`); it is run with privileges.
    pub fn make_dependency(&self, packages: &[Package]) -> (r: Vec<String>)
        ensures
            strings_view(r@) == seq!["apt-mark"@, "auto"@] + package_args(packages_view(packages@)),
    {
        package_command("apt-mark", &["auto"], &[], false, packages)
    }

    /// The command that installs `packages`; it is run with privileges.
    pub fn install_packages(&self, packages: &[Package], noconfirm: bool) -> (r: Vec<String>)
        ensures
            strings_view(r@) == seq!["apt"@, "install"@] + if_set(noconfirm, seq!["--yes"@]) + package_args(
                packages_view(packages@),
            ),
    {
        package_command(self.get_binary(), self.get_switches_install(), self.get_switches_noconfirm(), noconfirm, packages)
    }

    /// The command that removes `packages`; it is run with privileges.
    pub fn remove_packages(&self, packages: &[Package], noconfirm: bool) -> (r: Vec<String>)
        ensures
            strings_view(r@) == seq!["apt"@, "remove"@] + if_set(noconfirm, seq!["--yes"@]) + package_args(
                packages_view(packages@),
            ),
    {
        package_command(self.get_binary(), self.get_switches_remove(), self.get_switches_noconfirm(), noconfirm, packages)
    }

    /// The command that shows information on `package`.
    pub fn show_package_info(&self, package: &Package) -> (r: Vec<String>)
        ensures
            strings_view(r@) == seq!["apt"@, "show"@, package_display(package@)],
    {
        info_command(self.get_binary(), self.get_switches_info(), package)
    }
}

} // verus!
