//! The Void Linux backend (the `xbps` tools).

use vstd::prelude::*;
use crate::backend::{
    Switches, Text, add_groups, command, if_set, info_command, load_section, package_args,
    push_packages, push_switches, push_word, strings_view, words,
};
use crate::group::{Group, groups_view};
use crate::package::{
    Package, PackageView, distinct_packages, insert_package, package_display, packages_view,
    parse_package, set_insert,
};

verus! {

/// The Void Linux backend and its managed packages.
#[derive(Debug)]
pub struct Void {
    pub packages: Vec<Package>,
}

pub const BINARY: Text = "xbps-install";
pub const INSTALL_BINARY: Text = "xbps-install";
pub const REMOVE_BINARY: Text = "xbps-remove";
pub const QUERY_BINARY: Text = "xbps-query";
pub const PKGDB_BINARY: Text = "xbps-pkgdb";
pub const SECTION: Text = "void";
pub const SUPPORTS_AS_DEPENDENCY: bool = true;

/// The pattern that removes the package state and the description from a
/// line of `xbps-query -l`.
pub const STATUS_PATTERN: Text = "^ii |^uu |^hr |^\\?\\? | .*";

/// The pattern that removes the version from a package name.
pub const VERSION_PATTERN: Text = "-[^-]*$";

/// Whether `pattern` is a regular expression that the `regex` crate
/// accepts (`Regex::new(pattern)` succeeds).
pub uninterp spec fn regex_valid(pattern: Seq<char>) -> bool;

/// What is left of `text` once every match of the regular expression
/// `pattern` is removed (`Regex::replace_all(text, "")`).
pub uninterp spec fn regex_deletion(pattern: Seq<char>, text: Seq<char>) -> Seq<char>;

/// `text` with every match of `pattern` removed, or `None` where `pattern`
/// is not a valid regular expression. Calls `regex::Regex::new` and
/// `Regex::replace_all` with an empty replacement; the contract states that
/// the result is `None` exactly when the pattern is refused, and otherwise
/// names the result, which depends on the pattern and the text alone.
#[verifier::external_body]
fn delete_matches(pattern: &str, text: &str) -> (r: Option<String>)
    ensures
        match r {
            Some(s) => regex_valid(pattern@) && s@ == regex_deletion(pattern@, text@),
            None => !regex_valid(pattern@),
        },
{
    match regex::Regex::new(pattern) {
        Ok(re) => Some(re.replace_all(text, "").into_owned()),
        Err(_) => None,
    }
}

/// Why the installed packages could not be read.
#[derive(Debug, PartialEq, Eq, Structural)]
pub enum VoidQueryError {
    /// One of the patterns is not a valid regular expression.
    InvalidPattern,
}

/// The name left on a line of `xbps-query -l` once the state, the
/// description and the version are removed.
pub open spec fn listed_name(line: Seq<char>) -> Seq<char> {
    regex_deletion(VERSION_PATTERN@, regex_deletion(STATUS_PATTERN@, line))
}

/// The set of packages that the lines name, each after `strip` is applied.
pub open spec fn packages_named(lines: Seq<Seq<char>>, all: bool) -> Seq<PackageView>
    decreases lines.len(),
{
    if lines.len() == 0 {
        seq![]
    } else {
        let prev = packages_named(lines.drop_last(), all);
        let name = if all {
            listed_name(lines.last())
        } else {
            regex_deletion(VERSION_PATTERN@, lines.last())
        };
        match parse_package(name) {
            Some(p) => set_insert(prev, p),
            None => prev,
        }
    }
}

/// The packages named in a package manager's output, lines passed through
/// the patterns: both patterns where `all` is set, the version pattern alone
/// otherwise.
fn named_packages(output: &str, all: bool) -> (r: Result<Vec<Package>, VoidQueryError>)
    ensures
        match r {
            Ok(v) => regex_valid(STATUS_PATTERN@) && regex_valid(VERSION_PATTERN@) && packages_view(v@)
                == packages_named(crate::text::lines_of(output@), all),
            Err(e) => !(regex_valid(STATUS_PATTERN@) && regex_valid(VERSION_PATTERN@)),
        },
{
    if delete_matches(STATUS_PATTERN, "").is_none() || delete_matches(VERSION_PATTERN, "").is_none() {
        return Err(VoidQueryError::InvalidPattern);
    }
    let chars = crate::text::str_to_chars(output);
    let line_chars = crate::text::split_lines(chars.as_slice());
    let ghost ls = line_chars@.map_values(|l: Vec<char>| l@);
    let mut out: Vec<Package> = Vec::new();
    let mut i: usize = 0;
    proof {
        assert(ls.take(0) =~= Seq::<Seq<char>>::empty());
        assert(packages_view(out@) =~= Seq::<PackageView>::empty());
    }
    while i < line_chars.len()
        invariant
            i <= line_chars@.len(),
            ls == line_chars@.map_values(|l: Vec<char>| l@),
            ls == crate::text::lines_of(output@),
            regex_valid(STATUS_PATTERN@),
            regex_valid(VERSION_PATTERN@),
            packages_view(out@) == packages_named(ls.take(i as int), all),
        decreases line_chars.len() - i,
    {
        proof {
            assert(ls.take(i + 1).drop_last() =~= ls.take(i as int));
            assert(ls.take(i + 1).last() == line_chars@[i as int]@);
        }
        let line = crate::text::chars_to_string(line_chars[i].as_slice());
        let stripped = if all {
            match delete_matches(STATUS_PATTERN, line.as_str()) {
                Some(s) => s,
                None => return Err(VoidQueryError::InvalidPattern),
            }
        } else {
            line
        };
        let name = match delete_matches(VERSION_PATTERN, stripped.as_str()) {
            Some(s) => s,
            None => return Err(VoidQueryError::InvalidPattern),
        };
        match Package::try_from(name.as_str()) {
            Some(p) => insert_package(&mut out, p),
            None => {},
        }
        i = i + 1;
    }
    proof {
        assert(ls.take(ls.len() as int) =~= ls);
    }
    Ok(out)
}

impl Void {
    /// The backend with no packages.
    pub fn new() -> (r: Self)
        ensures
            r.packages@.len() == 0,
    {
        Void { packages: Vec::new() }
    }

    /// The binary that shows information on packages.
    pub fn get_binary_info(&self) -> (r: Text)
        ensures
            r@ == "xbps-query"@,
    {
        QUERY_BINARY
    }

    /// The binary that installs packages.
    pub fn get_binary_install(&self) -> (r: Text)
        ensures
            r@ == "xbps-install"@,
    {
        INSTALL_BINARY
    }

    /// The binary that removes packages.
    pub fn get_binary_remove(&self) -> (r: Text)
        ensures
            r@ == "xbps-remove"@,
    {
        REMOVE_BINARY
    }

    /// The binary that marks packages as dependencies.
    pub fn get_binary_make_dependency(&self) -> (r: Text)
        ensures
            r@ == "xbps-pkgdb"@,
    {
        PKGDB_BINARY
    }

    /// The binary of the backend.
    pub fn get_binary(&self) -> (r: Text)
        ensures
            r@ == "xbps-install"@,
    {
        BINARY
    }

    /// The section of group files that this backend reads.
    pub fn get_section(&self) -> (r: Text)
        ensures
            r@ == "void"@,
    {
        SECTION
    }

    /// The switches that list the explicitly installed packages.
    pub fn get_switches_info(&self) -> (r: Switches)
        ensures
            words(r@) == seq!["-m"@],
    {
        &["-m"]
    }

    /// The switches that install packages.
    pub fn get_switches_install(&self) -> (r: Switches)
        ensures
            words(r@) == seq!["-S"@],
    {
        &["-S"]
    }

    /// The switches that mark packages as dependencies.
    pub fn get_switches_make_dependency(&self) -> (r: Switches)
        ensures
            words(r@) == seq!["-m"@, "auto"@],
    {
        &["-m", "auto"]
    }

    /// The switches that skip confirmation.
    pub fn get_switches_noconfirm(&self) -> (r: Switches)
        ensures
            words(r@) == seq!["-y"@],
    {
        &["-y"]
    }

    /// The switches that remove packages.
    pub fn get_switches_remove(&self) -> (r: Switches)
        ensures
            words(r@) == seq!["-R"@],
    {
        &["-R"]
    }

    /// Whether packages can be marked as dependencies.
    pub fn supports_as_dependency(&self) -> (r: bool)
        ensures
            r,
    {
        SUPPORTS_AS_DEPENDENCY
    }

    /// Add the packages of the `void` section of every group to the managed
    /// packages.
    pub fn load(&mut self, groups: &Vec<Group>)
        requires
            distinct_packages(packages_view(old(self).packages@)),
        ensures
            packages_view(final(self).packages@) == add_groups(packages_view(old(self).packages@), groups_view(groups@), "void"@),
    {
        load_section(&mut self.packages, groups, SECTION);
    }

    /// The installed packages, from the output of `xbps-query -l`: each
    /// line without state, description and version, each package once.
    pub fn get_all_installed_packages(&self, output: &str) -> (r: Result<Vec<Package>, VoidQueryError>)
        ensures
            match r {
                Ok(v) => regex_valid(STATUS_PATTERN@) && regex_valid(VERSION_PATTERN@) && packages_view(v@)
                    == packages_named(crate::text::lines_of(output@), true),
                Err(_) => !(regex_valid(STATUS_PATTERN@) && regex_valid(VERSION_PATTERN@)),
            },
    {
        named_packages(output, true)
    }

    /// The explicitly installed packages, from the output of `xbps-query
    /// -m`: each line without its version, each package once.
    pub fn get_explicitly_installed_packages(&self, output: &str) -> (r: Result<Vec<Package>, VoidQueryError>)
        ensures
            match r {
                Ok(v) => regex_valid(STATUS_PATTERN@) && regex_valid(VERSION_PATTERN@) && packages_view(v@)
                    == packages_named(crate::text::lines_of(output@), false),
                Err(_) => !(regex_valid(STATUS_PATTERN@) && regex_valid(VERSION_PATTERN@)),
            },
    {
        named_packages(output, false)
    }

    /// The command that installs `packages`: `sudo xbps-install -S`, `-y`
    /// where asked for, and the packages.
    pub fn install_packages(&self, packages: &[Package], noconfirm: bool) -> (r: Vec<String>)
        ensures
            strings_view(r@) == seq!["sudo"@, "xbps-install"@, "-S"@] + if_set(noconfirm, seq!["-y"@]) + package_args(
                packages_view(packages@),
            ),
    {
        let mut cmd = command("sudo");
        push_word(&mut cmd, self.get_binary_install());
        push_switches(&mut cmd, self.get_switches_install());
        let ghost mid = strings_view(cmd@);
        if noconfirm {
            push_switches(&mut cmd, self.get_switches_noconfirm());
        } else {
            proof {
                assert(mid =~= mid + Seq::<Seq<char>>::empty());
            }
        }
        push_packages(&mut cmd, packages);
        cmd
    }

    /// The command that removes `packages`: `sudo xbps-remove -R`, `-y`
    /// where asked for, and the packages.
    pub fn remove_packages(&self, packages: &[Package], noconfirm: bool) -> (r: Vec<String>)
        ensures
            strings_view(r@) == seq!["sudo"@, "xbps-remove"@, "-R"@] + if_set(noconfirm, seq!["-y"@]) + package_args(
                packages_view(packages@),
            ),
    {
        let mut cmd = command("sudo");
        push_word(&mut cmd, self.get_binary_remove());
        push_switches(&mut cmd, self.get_switches_remove());
        let ghost mid = strings_view(cmd@);
        if noconfirm {
            push_switches(&mut cmd, self.get_switches_noconfirm());
        } else {
            proof {
                assert(mid =~= mid + Seq::<Seq<char>>::empty());
            }
        }
        push_packages(&mut cmd, packages);
        cmd
    }

    /// The command that marks `packages` as dependencies: `sudo xbps-pkgdb
    /// -m auto` and the packages.
    pub fn make_dependency(&self, packages: &[Package]) -> (r: Vec<String>)
        ensures
            strings_view(r@) == seq!["sudo"@, "xbps-pkgdb"@, "-m"@, "auto"@] + package_args(packages_view(packages@)),
    {
        let mut cmd = command("sudo");
        push_word(&mut cmd, self.get_binary_make_dependency());
        push_switches(&mut cmd, self.get_switches_make_dependency());
        push_packages(&mut cmd, packages);
        cmd
    }

    /// The command that shows information on `package`.
    pub fn show_package_info(&self, package: &Package) -> (r: Vec<String>)
        ensures
            strings_view(r@) == seq!["xbps-install"@, "-m"@, package_display(package@)],
    {
        info_command(self.get_binary(), self.get_switches_info(), package)
    }
}

} // verus!

verus! {

/// The names of the installed packages that `xbps-query -l` lists, as a
/// sorted set: each line with the state, the description and the version
/// removed.
pub fn xbps_installed_names(output: &str) -> (r: Result<Vec<String>, VoidQueryError>)
    ensures
        match r {
            Ok(v) => regex_valid(STATUS_PATTERN@) && regex_valid(VERSION_PATTERN@)
                && crate::packages::strictly_sorted(strings_view(v@))
                && strings_view(v@).to_set() == crate::text::lines_of(output@).map_values(|l: Seq<char>| listed_name(l)).to_set(),
            Err(e) => !(regex_valid(STATUS_PATTERN@) && regex_valid(VERSION_PATTERN@)),
        },
{
    if delete_matches(STATUS_PATTERN, "").is_none() || delete_matches(VERSION_PATTERN, "").is_none() {
        return Err(VoidQueryError::InvalidPattern);
    }
    let lines = crate::backend::output_lines(output);
    let ghost ls = strings_view(lines@);
    let ghost names = ls.map_values(|l: Seq<char>| listed_name(l));
    let mut out: Vec<String> = Vec::new();
    let mut i: usize = 0;
    proof {
        assert(names.take(0).to_set() =~= Set::<Seq<char>>::empty());
        assert(strings_view(out@).to_set() =~= Set::<Seq<char>>::empty());
    }
    while i < lines.len()
        invariant
            i <= lines@.len(),
            ls == strings_view(lines@),
            names == ls.map_values(|l: Seq<char>| listed_name(l)),
            regex_valid(STATUS_PATTERN@),
            regex_valid(VERSION_PATTERN@),
            crate::packages::strictly_sorted(strings_view(out@)),
            strings_view(out@).to_set() == names.take(i as int).to_set(),
        decreases lines.len() - i,
    {
        let stripped = match delete_matches(STATUS_PATTERN, lines[i].as_str()) {
            Some(s) => s,
            None => return Err(VoidQueryError::InvalidPattern),
        };
        let name = match delete_matches(VERSION_PATTERN, stripped.as_str()) {
            Some(s) => s,
            None => return Err(VoidQueryError::InvalidPattern),
        };
        proof {
            assert(ls[i as int] == lines@[i as int]@);
            assert(names[i as int] == name@);
            assert(strings_view(out@) == crate::packages::ids_of(out@));
        }
        crate::packages::insert_sorted(&mut out, name);
        proof {
            assert(strings_view(out@) == crate::packages::ids_of(out@));
            assert(names.take(i + 1) =~= names.take(i as int) + seq![names[i as int]]);
            Seq::lemma_to_set_insert_commutes(names.take(i as int), names[i as int]);
        }
        i = i + 1;
    }
    proof {
        assert(names.take(names.len() as int) =~= names);
    }
    Ok(out)
}

} // verus!
