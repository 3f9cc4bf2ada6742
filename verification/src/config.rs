//! The program's configuration, as kept in `pacdef.yaml`.

use vstd::prelude::*;

verus! {

/// Config for the program, as listed in `$XDG_CONFIG_HOME/pacdef/pacdef.yaml`.
#[derive(Debug)]
pub struct Config {
    /// The AUR helper to use for Arch Linux.
    pub aur_helper: String,
    /// Additional arguments to pass to `aur_helper` when removing a package.
    pub aur_rm_args: Option<Vec<String>>,
    /// Warn the user when a group is not a symlink.
    pub warn_not_symlinks: bool,
}

impl Default for Config {
    /// The default config: `paru` as AUR helper, no additional removal
    /// arguments, and warnings for group files that are not symlinks.
    fn default() -> (r: Self)
        ensures
            r.aur_helper@ == "paru"@,
            r.aur_rm_args is None,
            r.warn_not_symlinks,
    {
        Self { aur_helper: "paru".to_owned(), aur_rm_args: None, warn_not_symlinks: true }
    }
}

} // verus!
