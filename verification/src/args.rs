//! The parsed command line: which subcommand, and its arguments.

use vstd::prelude::*;

verus! {

/// The arguments as given on the command line.
#[derive(Debug)]
pub struct Args {
    pub command: MainActions,
}

/// The top-level subcommands that the command line offers.
#[derive(Debug, Clone, Copy, PartialEq, Eq, Structural)]
pub enum MainActions {
    Group,
    Package,
    Version,
}

/// The parsed command line.
#[derive(Debug)]
pub enum Arguments {
    Group(GroupAction),
    Package(PackageAction),
    Version,
}

/// A `group` subcommand and its arguments.
#[derive(Debug)]
pub enum GroupAction {
    Edit(Groups),
    Export(Groups),
    Import(Groups),
    List,
    New(Groups, Edit),
    Remove(Groups),
    Show(Groups),
}

/// File names given as arguments.
#[derive(Debug)]
pub struct Files(pub Vec<String>);

/// Group names given as arguments.
#[derive(Debug)]
pub struct Groups(pub Vec<String>);

/// A `package` subcommand and its arguments.
#[derive(Debug)]
pub enum PackageAction {
    Clean(Noconfirm),
    Review,
    Search(Regex),
    Sync(Noconfirm),
    Unmanaged,
}

/// The search pattern given as argument.
#[derive(Debug)]
pub struct Regex(pub String);

/// Whether to edit new group files right away.
#[derive(Debug, Clone, Copy, PartialEq, Eq, Structural)]
pub struct Edit(pub bool);

/// Whether to go ahead without asking for confirmation.
#[derive(Debug, Clone, Copy, PartialEq, Eq, Structural)]
pub struct Noconfirm(pub bool);

} // verus!
