//! The Python backend (`pip`, or another binary of the same kind).

use vstd::prelude::*;
use crate::backend::{
    Switches, Text, add_groups, command, info_command, load_section, package_args, push_packages,
    push_switches, strings_view, words,
};
use crate::group::{Group, groups_view};
use crate::package::{Package, distinct_packages, package_display, packages_of, packages_view};

verus! {

/// The Python backend: the binary to run and the managed packages.
#[derive(Debug)]
pub struct Python {
    pub binary: String,
    pub packages: Vec<Package>,
}

pub const BINARY: Text = "pip";
pub const SECTION: Text = "python";
pub const SUPPORTS_AS_DEPENDENCY: bool = false;

/// The switches that list the installed packages as JSON, which depend on
/// the binary.
pub open spec fn runtime_switches(binary: Seq<char>) -> Seq<Seq<char>> {
    if binary == "pip"@ {
        seq!["list"@, "--format"@, "json"@, "--user"@]
    } else {
        seq!["list"@, "--json"@]
    }
}

impl Python {
    /// The backend with `pip` as binary and no packages.
    pub fn new() -> (r: Self)
        ensures
            r.binary@ == "pip"@,
            r.packages@.len() == 0,
    {
        Self { binary: BINARY.to_owned(), packages: Vec::new() }
    }

    /// The binary to run.
    pub fn get_binary(&self) -> (r: &str)
        ensures
            r@ == self.binary@,
    {
        self.binary.as_str()
    }

    /// The section of group files that this backend reads.
    pub fn get_section(&self) -> (r: Text)
        ensures
            r@ == "python"@,
    {
        SECTION
    }

    /// The switches that show information on packages.
    pub fn get_switches_info(&self) -> (r: Switches)
        ensures
            words(r@) == seq!["show"@],
    {
        &["show"]
    }

    /// The switches that install packages.
    pub fn get_switches_install(&self) -> (r: Switches)
        ensures
            words(r@) == seq!["install"@],
    {
        &["install"]
    }

    /// The switches that remove packages.
    pub fn get_switches_remove(&self) -> (r: Switches)
        ensures
            words(r@) == seq!["uninstall"@],
    {
        &["uninstall"]
    }

    /// Whether packages can be marked as dependencies.
    pub fn supports_as_dependency(&self) -> (r: bool)
        ensures
            !r,
    {
        SUPPORTS_AS_DEPENDENCY
    }

    /// The switches that list the installed packages as JSON: `list
    /// --format json --user` for `pip`, `list --json` for other binaries.
    pub fn get_switches_runtime(&self) -> (r: Switches)
        ensures
            words(r@) == runtime_switches(self.binary@),
    {
        if crate::text::str_eq(self.get_binary(), "pip") {
            &["list", "--format", "json", "--user"]
        } else {
            &["list", "--json"]
        }
    }

    /// The switches that list the explicitly installed packages as JSON.
    pub fn get_switches_explicit(&self) -> (r: Switches)
        ensures
            words(r@) == seq!["list"@, "--format"@, "json"@, "--not-required"@, "--user"@],
    {
        &["list", "--format", "json", "--not-required", "--user"]
    }

    /// Add the packages of the `python` section of every group to the
    /// managed packages.
    pub fn load(&mut self, groups: &Vec<Group>)
        requires
            distinct_packages(packages_view(old(self).packages@)),
        ensures
            packages_view(final(self).packages@) == add_groups(packages_view(old(self).packages@), groups_view(groups@), "python"@),
            final(self).binary == old(self).binary,
    {
        load_section(&mut self.packages, groups, SECTION);
    }

    /// The command that installs `packages`.
    pub fn install_packages(&self, packages: &[Package]) -> (r: Vec<String>)
        ensures
            strings_view(r@) == seq![self.binary@, "install"@] + package_args(packages_view(packages@)),
    {
        let mut cmd = command(self.get_binary());
        push_switches(&mut cmd, self.get_switches_install());
        push_packages(&mut cmd, packages);
        cmd
    }

    /// The command that removes `packages`.
    pub fn remove_packages(&self, packages: &[Package]) -> (r: Vec<String>)
        ensures
            strings_view(r@) == seq![self.binary@, "uninstall"@] + package_args(packages_view(packages@)),
    {
        let mut cmd = command(self.get_binary());
        push_switches(&mut cmd, self.get_switches_remove());
        push_packages(&mut cmd, packages);
        cmd
    }

    /// The command that shows information on `package`.
    pub fn show_package_info(&self, package: &Package) -> (r: Vec<String>)
        ensures
            strings_view(r@) == seq![self.binary@, "show"@, package_display(package@)],
    {
        info_command(self.get_binary(), self.get_switches_info(), package)
    }
}

/// The packages named in the JSON list that `pip` prints: the `name` of
/// each entry, each package once.
pub fn extract_pacdef_packages(names: &Vec<String>) -> (r: Vec<Package>)
    ensures
        packages_view(r@) == packages_of(names@.map_values(|n: String| n@)),
        distinct_packages(packages_view(r@)),
{
    Package::from_lines(names)
}

/// What `serde_json` reads from the JSON list that `pip` prints: the
/// `name` of each entry, in order; nothing where the text is no JSON array
/// or an entry's `name` is no string.
pub uninterp spec fn json_list_names(text: Seq<char>) -> Option<Seq<Seq<char>>>;

/// Parses `text` with `serde_json::from_str` into a `serde_json::Value`,
/// takes its array (`Value::as_array`) and reads each entry's `name`
/// (`Value` indexed by `"name"`, then `Value::as_str`). The contract claims
/// only that the result depends on the text alone, under the name
/// `json_list_names`; what `serde_json` accepts as JSON is left unsaid. An
/// entry whose `name` is no string gives `None`.
#[verifier::external_body]
pub(crate) fn list_names(text: &str) -> (r: Option<Vec<String>>)
    ensures
        match r {
            Some(v) => json_list_names(text@) == Some(strings_view(v@)),
            None => json_list_names(text@) is None,
        },
{
    let value: serde_json::Value = serde_json::from_str(text).ok()?;
    value.as_array()?.iter().map(|node| node["name"].as_str().map(String::from)).collect()
}

/// The packages of the JSON list that `pip` prints (`pip list --format
/// json`): the package each entry's `name` stands for, each package once;
/// `None` where the text is not such a list.
pub fn packages_of_pip_output(output: &str) -> (r: Option<Vec<Package>>)
    ensures
        match json_list_names(output@) {
            Some(names) => r matches Some(p) && packages_view(p@) == packages_of(names) && distinct_packages(
                packages_view(p@),
            ),
            None => r is None,
        },
{
    match list_names(output) {
        Some(names) => {
            proof {
                assert(names@.map_values(|n: String| n@) =~= strings_view(names@));
            }
            Some(extract_pacdef_packages(&names))
        },
        None => None,
    }
}

} // verus!
