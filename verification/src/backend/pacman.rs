//! The package database of Arch Linux read as packages.

use vstd::prelude::*;
use crate::backend::{Switches, Text, add_groups, load_section, words};
use crate::group::{Group, groups_view};
use crate::package::{Package, distinct_packages, packages_of, packages_view};

verus! {

/// The `pacman` backend and its managed packages.
#[derive(Debug)]
pub struct Pacman {
    pub packages: Vec<Package>,
}

/// The binary to run: an AUR helper that wraps `pacman`.
pub const BINARY: Text = "paru";

/// The section of group files that the backend reads.
pub const SECTION: Text = "arch";

/// The packages that the names of installed packages stand for, each
/// package once.
pub fn convert_to_pacdef_packages(names: &Vec<String>) -> (r: Vec<Package>)
    ensures
        packages_view(r@) == packages_of(names@.map_values(|n: String| n@)),
        distinct_packages(packages_view(r@)),
{
    Package::from_lines(names)
}

/// All installed packages, from the names the package database lists.
pub fn get_all_installed_packages(names: &Vec<String>) -> (r: Vec<Package>)
    ensures
        packages_view(r@) == packages_of(names@.map_values(|n: String| n@)),
        distinct_packages(packages_view(r@)),
{
    convert_to_pacdef_packages(names)
}

/// The explicitly installed packages, from the names the package database
/// lists as installed explicitly.
pub fn get_explicitly_installed_packages(names: &Vec<String>) -> (r: Vec<Package>)
    ensures
        packages_view(r@) == packages_of(names@.map_values(|n: String| n@)),
        distinct_packages(packages_view(r@)),
{
    convert_to_pacdef_packages(names)
}

impl Pacman {
    /// The backend with no packages.
    pub fn new() -> (r: Self)
        ensures
            r.packages@.len() == 0,
    {
        Self { packages: Vec::new() }
    }

    /// The binary to run.
    pub fn get_binary(&self) -> (r: Text)
        ensures
            r@ == "paru"@,
    {
        BINARY
    }

    /// The section of group files that this backend reads.
    pub fn get_section(&self) -> (r: Text)
        ensures
            r@ == "arch"@,
    {
        SECTION
    }

    /// The switches that install packages.
    pub fn get_switches_install(&self) -> (r: Switches)
        ensures
            words(r@) == seq!["-S"@],
    {
        &["-S"]
    }

    /// The switches that remove packages with their unneeded dependencies.
    pub fn get_switches_remove(&self) -> (r: Switches)
        ensures
            words(r@) == seq!["-Rsn"@],
    {
        &["-Rsn"]
    }

    /// Add the packages of the `arch` section of every group to the managed
    /// packages.
    pub fn load(&mut self, groups: &Vec<Group>)
        requires
            distinct_packages(packages_view(old(self).packages@)),
        ensures
            packages_view(final(self).packages@) == add_groups(packages_view(old(self).packages@), groups_view(groups@), "arch"@),
            distinct_packages(packages_view(final(self).packages@)),
    {
        load_section(&mut self.packages, groups, SECTION);
    }

    /// All installed packages, from the names the package database lists.
    pub fn get_all_installed_packages(&self, names: &Vec<String>) -> (r: Vec<Package>)
        ensures
            packages_view(r@) == packages_of(names@.map_values(|n: String| n@)),
    {
        convert_to_pacdef_packages(names)
    }

    /// The explicitly installed packages, from the names the package
    /// database lists as installed explicitly.
    pub fn get_explicitly_installed_packages(&self, names: &Vec<String>) -> (r: Vec<Package>)
        ensures
            packages_view(r@) == packages_of(names@.map_values(|n: String| n@)),
    {
        convert_to_pacdef_packages(names)
    }
}

impl Default for Pacman {
    fn default() -> (r: Self)
        ensures
            r.packages@.len() == 0,
    {
        Self::new()
    }
}

} // verus!
