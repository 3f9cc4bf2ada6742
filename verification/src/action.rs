//! The actions the program performs: the subcommands and their names.

use vstd::prelude::*;
use crate::text::str_eq;

verus! {

/// All main actions the program can perform. Variants of the enum relate to
/// the different subcommands.
#[derive(Debug, Clone, Copy, PartialEq, Eq, Structural)]
pub enum Actions {
    Clean,
    Edit,
    Import,
    List,
    New,
    Remove,
    Review,
    Search,
    Show,
    Sync,
    Unmanaged,
    Version,
}

pub const CLEAN: &'static str = "clean";
pub const EDIT: &'static str = "edit";
pub const IMPORT: &'static str = "import";
pub const LIST: &'static str = "list";
pub const NEW: &'static str = "new";
pub const REMOVE: &'static str = "remove";
pub const REVIEW: &'static str = "review";
pub const SEARCH: &'static str = "search";
pub const SHOW: &'static str = "show";
pub const SYNC: &'static str = "sync";
pub const UNMANAGED: &'static str = "unmanaged";
pub const VERSION: &'static str = "version";

/// The name of an action: its variant's name in lower case.
pub open spec fn action_name(a: Actions) -> Seq<char> {
    match a {
        Actions::Clean => "clean"@,
        Actions::Edit => "edit"@,
        Actions::Import => "import"@,
        Actions::List => "list"@,
        Actions::New => "new"@,
        Actions::Remove => "remove"@,
        Actions::Review => "review"@,
        Actions::Search => "search"@,
        Actions::Show => "show"@,
        Actions::Sync => "sync"@,
        Actions::Unmanaged => "unmanaged"@,
        Actions::Version => "version"@,
    }
}

impl Actions {
    /// The name of the action: its variant's name in lower case.
    pub fn name(&self) -> (r: &'static str)
        ensures
            r@ == action_name(*self),
    {
        match self {
            Actions::Clean => "clean",
            Actions::Edit => "edit",
            Actions::Import => "import",
            Actions::List => "list",
            Actions::New => "new",
            Actions::Remove => "remove",
            Actions::Review => "review",
            Actions::Search => "search",
            Actions::Show => "show",
            Actions::Sync => "sync",
            Actions::Unmanaged => "unmanaged",
            Actions::Version => "version",
        }
    }
}

/// The top-level subcommands.
#[derive(Debug, Clone, Copy, PartialEq, Eq, Structural)]
pub enum MainActions {
    Group(GroupAction),
    Package(PackageAction),
    Version,
}

/// The subcommands of `group`.
#[derive(Debug, Clone, Copy, PartialEq, Eq, Structural)]
pub enum GroupAction {
    Edit,
    Import,
    List,
    New,
    Remove,
    Show,
}

/// The subcommands of `package`.
#[derive(Debug, Clone, Copy, PartialEq, Eq, Structural)]
pub enum PackageAction {
    Clean,
    Review,
    Search,
    Sync,
    Unmanaged,
}

/// The group action a word names, if any.
pub open spec fn parse_group_action(v: Seq<char>) -> Option<GroupAction> {
    if v == "edit"@ {
        Some(GroupAction::Edit)
    } else if v == "import"@ {
        Some(GroupAction::Import)
    } else if v == "list"@ {
        Some(GroupAction::List)
    } else if v == "new"@ {
        Some(GroupAction::New)
    } else if v == "remove"@ {
        Some(GroupAction::Remove)
    } else if v == "show"@ {
        Some(GroupAction::Show)
    } else {
        None
    }
}

/// The package action a word names, if any.
pub open spec fn parse_package_action(v: Seq<char>) -> Option<PackageAction> {
    if v == "clean"@ {
        Some(PackageAction::Clean)
    } else if v == "review"@ {
        Some(PackageAction::Review)
    } else if v == "search"@ {
        Some(PackageAction::Search)
    } else if v == "sync"@ {
        Some(PackageAction::Sync)
    } else if v == "unmanaged"@ {
        Some(PackageAction::Unmanaged)
    } else {
        None
    }
}

/// The word that names a group action.
pub open spec fn group_action_word(g: GroupAction) -> Seq<char> {
    match g {
        GroupAction::Edit => "edit"@,
        GroupAction::Import => "import"@,
        GroupAction::List => "list"@,
        GroupAction::New => "new"@,
        GroupAction::Remove => "remove"@,
        GroupAction::Show => "show"@,
    }
}

/// The word that names a package action.
pub open spec fn package_action_word(p: PackageAction) -> Seq<char> {
    match p {
        PackageAction::Clean => "clean"@,
        PackageAction::Review => "review"@,
        PackageAction::Search => "search"@,
        PackageAction::Sync => "sync"@,
        PackageAction::Unmanaged => "unmanaged"@,
    }
}

impl GroupAction {
    /// The group action `value` names: `edit`, `import`, `list`, `new`,
    /// `remove` or `show`.
    pub fn try_from(value: &str) -> (r: Option<Self>)
        ensures
            r == parse_group_action(value@),
    {
        if str_eq(value, "edit") {
            Some(Self::Edit)
        } else if str_eq(value, "import") {
            Some(Self::Import)
        } else if str_eq(value, "list") {
            Some(Self::List)
        } else if str_eq(value, "new") {
            Some(Self::New)
        } else if str_eq(value, "remove") {
            Some(Self::Remove)
        } else if str_eq(value, "show") {
            Some(Self::Show)
        } else {
            None
        }
    }
}

impl PackageAction {
    /// The package action `value` names: `clean`, `review`, `search`,
    /// `sync` or `unmanaged`.
    pub fn try_from(value: &str) -> (r: Option<Self>)
        ensures
            r == parse_package_action(value@),
    {
        if str_eq(value, "clean") {
            Some(Self::Clean)
        } else if str_eq(value, "review") {
            Some(Self::Review)
        } else if str_eq(value, "search") {
            Some(Self::Search)
        } else if str_eq(value, "sync") {
            Some(Self::Sync)
        } else if str_eq(value, "unmanaged") {
            Some(Self::Unmanaged)
        } else {
            None
        }
    }
}

/// Each group action is read back from the word that names it.
pub proof fn lemma_group_action_roundtrip(g: GroupAction)
    ensures
        parse_group_action(group_action_word(g)) == Some(g),
{
    reveal_strlit("edit");
    reveal_strlit("import");
    reveal_strlit("list");
    reveal_strlit("new");
    reveal_strlit("remove");
    reveal_strlit("show");
    assert("edit"@[0] == 'e');
    assert("import"@[0] == 'i');
    assert("list"@[0] == 'l');
    assert("new"@[0] == 'n');
    assert("remove"@[0] == 'r');
    assert("show"@[0] == 's');
}

/// Each package action is read back from the word that names it.
pub proof fn lemma_package_action_roundtrip(p: PackageAction)
    ensures
        parse_package_action(package_action_word(p)) == Some(p),
{
    reveal_strlit("clean");
    reveal_strlit("review");
    reveal_strlit("search");
    reveal_strlit("sync");
    reveal_strlit("unmanaged");
    assert("clean"@[0] == 'c');
    assert("review"@[0] == 'r');
    assert("search"@[0] == 's');
    assert("sync"@[0] == 's');
    assert("search"@.len() != "sync"@.len());
    assert("unmanaged"@[0] == 'u');
}

} // verus!
