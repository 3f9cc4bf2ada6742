//! The errors pacdef reports.

use vstd::prelude::*;
use crate::text::concat_str;

verus! {

/// Error types for pacdef.
#[derive(Debug)]
pub enum Error {
    /// Package search yields no results.
    NoPackagesFound,
    /// Config file not found.
    ConfigFileNotFound,
    /// Group file not found.
    GroupFileNotFound(String),
    /// Group already exists (the path of its file).
    GroupAlreadyExists(String),
    /// Invalid group name (`.` or `..`).
    InvalidGroupName(String),
}

/// The message an error is shown with.
pub open spec fn error_message(e: Error) -> Seq<char> {
    match e {
        Error::NoPackagesFound => "no packages matching query"@,
        Error::ConfigFileNotFound => "config file not found"@,
        Error::GroupFileNotFound(name) => "group file '"@ + name@ + "' not found"@,
        Error::GroupAlreadyExists(path) => "group file '"@ + path@ + "' already exists"@,
        Error::InvalidGroupName(name) => "group name '"@ + name@ + "' is not valid"@,
    }
}

impl Error {
    /// The message the error is shown with.
    pub fn to_string(&self) -> (r: String)
        ensures
            r@ == error_message(*self),
    {
        match self {
            Error::NoPackagesFound => "no packages matching query".to_owned(),
            Error::ConfigFileNotFound => "config file not found".to_owned(),
            Error::GroupFileNotFound(name) => {
                let a = concat_str("group file '", name.as_str());
                concat_str(a.as_str(), "' not found")
            },
            Error::GroupAlreadyExists(path) => {
                let a = concat_str("group file '", path.as_str());
                concat_str(a.as_str(), "' already exists")
            },
            Error::InvalidGroupName(name) => {
                let a = concat_str("group name '", name.as_str());
                concat_str(a.as_str(), "' is not valid")
            },
        }
    }
}

} // verus!
