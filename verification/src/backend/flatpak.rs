//! The Flatpak backend.

use vstd::prelude::*;
use crate::backend::{
    Switches, Text, add_groups, if_set, info_command, load_section, package_args, package_command,
    strings_view, words,
};
use crate::group::{Group, groups_view};
use crate::package::{Package, distinct_packages, package_display, packages_view};

verus! {

/// The Flatpak backend and its managed packages.
#[derive(Debug)]
pub struct Flatpak {
    pub packages: Vec<Package>,
}

pub const BINARY: Text = "flatpak";
pub const SECTION: Text = "flatpak";
pub const SUPPORTS_AS_DEPENDENCY: bool = false;

impl Flatpak {
    /// The backend with no packages.
    pub fn new() -> (r: Self)
        ensures
            r.packages@.len() == 0,
    {
        Self { packages: Vec::new() }
    }

    /// The binary to run.
    pub fn get_binary(&self) -> (r: Text)
        ensures
            r@ == "flatpak"@,
    {
        BINARY
    }

    /// The section of group files that this backend reads.
    pub fn get_section(&self) -> (r: Text)
        ensures
            r@ == "flatpak"@,
    {
        SECTION
    }

    /// The switches that show information on packages (none).
    pub fn get_switches_info(&self) -> (r: Switches)
        ensures
            words(r@) == Seq::<Seq<char>>::empty(),
    {
        &[]
    }

    /// The switches that install packages.
    pub fn get_switches_install(&self) -> (r: Switches)
        ensures
            words(r@) == seq!["install"@],
    {
        &["install"]
    }

    /// The switches that mark packages as dependencies (none).
    pub fn get_switches_make_dependency(&self) -> (r: Switches)
        ensures
            words(r@) == Seq::<Seq<char>>::empty(),
    {
        &[]
    }

    /// The switches that skip confirmation (none).
    pub fn get_switches_noconfirm(&self) -> (r: Switches)
        ensures
            words(r@) == Seq::<Seq<char>>::empty(),
    {
        &[]
    }

    /// The switches that remove packages.
    pub fn get_switches_remove(&self) -> (r: Switches)
        ensures
            words(r@) == seq!["uninstall"@],
    {
        &["uninstall"]
    }

    /// Whether packages can be marked as dependencies.
    pub fn supports_as_dependency(&self) -> (r: bool)
        ensures
            !r,
    {
        SUPPORTS_AS_DEPENDENCY
    }

    /// Add the packages of the `flatpak` section of every group to the
    /// managed packages.
    pub fn load(&mut self, groups: &Vec<Group>)
        requires
            distinct_packages(packages_view(old(self).packages@)),
        ensures
            packages_view(final(self).packages@) == add_groups(packages_view(old(self).packages@), groups_view(groups@), "flatpak"@),
    {
        load_section(&mut self.packages, groups, SECTION);
    }

    /// The installed packages: this backend reports none.
    pub fn get_all_installed_packages(&self) -> (r: Vec<Package>)
        ensures
            r@.len() == 0,
    {
        Vec::new()
    }

    /// The explicitly installed packages: this backend reports none.
    pub fn get_explicitly_installed_packages(&self) -> (r: Vec<Package>)
        ensures
            r@.len() == 0,
    {
        Vec::new()
    }

    /// The command that installs `packages`.
    pub fn install_packages(&self, packages: &[Package], noconfirm: bool) -> (r: Vec<String>)
        ensures
            strings_view(r@) == seq!["flatpak"@, "install"@] + package_args(packages_view(packages@)),
    {
        let r = package_command(self.get_binary(), self.get_switches_install(), self.get_switches_noconfirm(), noconfirm, packages);
        proof {
            assert(seq!["flatpak"@] + seq!["install"@] + if_set(noconfirm, Seq::<Seq<char>>::empty()) =~= seq!["flatpak"@, "install"@]);
        }
        r
    }

    /// The command that removes `packages`.
    pub fn remove_packages(&self, packages: &[Package], noconfirm: bool) -> (r: Vec<String>)
        ensures
            strings_view(r@) == seq!["flatpak"@, "uninstall"@] + package_args(packages_view(packages@)),
    {
        let r = package_command(self.get_binary(), self.get_switches_remove(), self.get_switches_noconfirm(), noconfirm, packages);
        proof {
            assert(seq!["flatpak"@] + seq!["uninstall"@] + if_set(noconfirm, Seq::<Seq<char>>::empty()) =~= seq!["flatpak"@, "uninstall"@]);
        }
        r
    }

    /// The command that shows information on `package`.
    pub fn show_package_info(&self, package: &Package) -> (r: Vec<String>)
        ensures
            strings_view(r@) == seq!["flatpak"@, package_display(package@)],
    {
        info_command(self.get_binary(), self.get_switches_info(), package)
    }
}

} // verus!
