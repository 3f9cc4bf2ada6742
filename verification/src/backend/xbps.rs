//! The `xbps` tools as a backend of package identifiers.

use vstd::prelude::*;
use crate::backend::{command, if_set, push_strings, push_switches, strings_view};
use crate::backend::void::{VoidQueryError, listed_name, xbps_installed_names};

verus! {

/// The `xbps` backend.
#[derive(Debug, Clone, Copy)]
pub struct Xbps;

/// The change `xbps` makes to installed packages: mark them as installed
/// automatically.
#[derive(Debug, Clone, Copy)]
pub struct XbpsMakeImplicit;

impl Xbps {
    /// The installed packages, from the output of `xbps-query -l`: the
    /// names, as a sorted set.
    pub fn query_installed_packages(output: &str) -> (r: Result<Vec<String>, VoidQueryError>)
        ensures
            match r {
                Ok(v) => crate::packages::strictly_sorted(strings_view(v@)) && strings_view(v@).to_set()
                    == crate::text::lines_of(output@).map_values(|l: Seq<char>| listed_name(l)).to_set(),
                Err(e) => true,
            },
            r is Err ==> !(crate::backend::void::regex_valid(crate::backend::void::STATUS_PATTERN@)
                && crate::backend::void::regex_valid(crate::backend::void::VERSION_PATTERN@)),
    {
        xbps_installed_names(output)
    }

    /// The command that installs `packages`: `xbps-install -S`, `-y` where
    /// `noconfirm` is set, and the packages.
    pub fn install_packages(packages: &Vec<String>, noconfirm: bool) -> (r: Vec<String>)
        ensures
            strings_view(r@) == seq!["xbps-install"@, "-S"@] + if_set(noconfirm, seq!["-y"@]) + strings_view(packages@),
    {
        let mut cmd = command("xbps-install");
        push_switches(&mut cmd, &["-S"]);
        let ghost mid = strings_view(cmd@);
        if noconfirm {
            push_switches(&mut cmd, &["-y"]);
        } else {
            proof {
                assert(mid =~= mid + Seq::<Seq<char>>::empty());
            }
        }
        push_strings(&mut cmd, packages);
        cmd
    }

    /// The command that removes `packages`: `xbps-remove -R`, `-y` where
    /// `noconfirm` is set, and the packages.
    pub fn remove_packages(packages: &Vec<String>, noconfirm: bool) -> (r: Vec<String>)
        ensures
            strings_view(r@) == seq!["xbps-remove"@, "-R"@] + if_set(noconfirm, seq!["-y"@]) + strings_view(packages@),
    {
        let mut cmd = command("xbps-remove");
        push_switches(&mut cmd, &["-R"]);
        let ghost mid = strings_view(cmd@);
        if noconfirm {
            push_switches(&mut cmd, &["-y"]);
        } else {
            proof {
                assert(mid =~= mid + Seq::<Seq<char>>::empty());
            }
        }
        push_strings(&mut cmd, packages);
        cmd
    }

    /// The command that marks `packages` as installed automatically.
    pub fn modify_packages(packages: &Vec<String>) -> (r: Vec<String>)
        ensures
            strings_view(r@) == seq!["xbps-pkgdb"@, "-m"@, "auto"@] + strings_view(packages@),
    {
        let mut cmd = command("xbps-pkgdb");
        push_switches(&mut cmd, &["-m", "auto"]);
        push_strings(&mut cmd, packages);
        cmd
    }
}

} // verus!
