//! The Rust backend (`cargo`).

use vstd::prelude::*;
use crate::backend::{
    Switches, Text, add_groups, info_command, load_section, package_args, package_command,
    strings_view, words,
};
use crate::group::{Group, groups_view};
use crate::package::{
    Package, PackageView, distinct_packages, insert_package, lemma_set_insert_distinct, package_display,
    packages_view, parse_package, set_insert,
};
use crate::path::{PathError, location_result, opt_chars, path_push, push_path};
use crate::text::{first_word, first_word_of};

verus! {

/// The Rust backend and its managed packages.
#[derive(Debug)]
pub struct Rust {
    pub packages: Vec<Package>,
}

pub const BINARY: Text = "cargo";
pub const SECTION: Text = "rust";
pub const SUPPORTS_AS_DEPENDENCY: bool = false;

/// Whether the crate identifier `key` holds a word.
pub open spec fn has_word(key: Seq<char>) -> bool {
    first_word(key).len() > 0
}

/// Every crate identifier holds a word.
pub open spec fn all_have_words(keys: Seq<Seq<char>>) -> bool {
    forall|i: int| 0 <= i < keys.len() ==> has_word(#[trigger] keys[i])
}

/// The packages of the `installs` keys of cargo's crates file: the package
/// named by the first word of each key, where it names one, each package
/// once.
pub open spec fn installed_crates(keys: Seq<Seq<char>>) -> Seq<PackageView>
    decreases keys.len(),
{
    if keys.len() == 0 {
        seq![]
    } else {
        match parse_package(first_word(keys.last())) {
            Some(p) => set_insert(installed_crates(keys.drop_last()), p),
            None => installed_crates(keys.drop_last()),
        }
    }
}

pub proof fn lemma_installed_crates_distinct(keys: Seq<Seq<char>>)
    ensures
        distinct_packages(installed_crates(keys)),
    decreases keys.len(),
{
    if keys.len() > 0 {
        lemma_installed_crates_distinct(keys.drop_last());
        match parse_package(first_word(keys.last())) {
            Some(p) => lemma_set_insert_distinct(installed_crates(keys.drop_last()), p),
            None => {},
        }
    }
}

/// The packages installed with cargo, from the keys of the `installs`
/// object of its crates file (`name version (source)` each): the package
/// named by each key's first word, where it names one, each package once.
/// Every key holds a word.
pub fn extract_packages(keys: &Vec<String>) -> (r: Vec<Package>)
    requires
        forall|i: int| 0 <= i < keys@.len() ==> has_word(#[trigger] keys@[i]@),
    ensures
        packages_view(r@) == installed_crates(keys@.map_values(|k: String| k@)),
        distinct_packages(packages_view(r@)),
{
    let ghost kv = keys@.map_values(|k: String| k@);
    let mut out: Vec<Package> = Vec::new();
    let mut i: usize = 0;
    proof {
        assert(kv.take(0) =~= Seq::<Seq<char>>::empty());
        assert(packages_view(out@) =~= Seq::<PackageView>::empty());
    }
    while i < keys.len()
        invariant
            i <= keys@.len(),
            kv == keys@.map_values(|k: String| k@),
            forall|k: int| 0 <= k < keys@.len() ==> has_word(#[trigger] keys@[k]@),
            packages_view(out@) == installed_crates(kv.take(i as int)),
        decreases keys.len() - i,
    {
        proof {
            assert(kv.take(i + 1).drop_last() =~= kv.take(i as int));
            assert(kv.take(i + 1).last() == keys@[i as int]@);
            assert(has_word(keys@[i as int]@));
        }
        let name = first_word_of(keys[i].as_str());
        match Package::try_from(name.as_str()) {
            Some(p) => insert_package(&mut out, p),
            None => {},
        }
        i = i + 1;
    }
    proof {
        assert(kv.take(kv.len() as int) =~= kv);
        lemma_installed_crates_distinct(kv);
    }
    out
}

/// What `serde_json` reads from cargo's crates file: the keys of its
/// `installs` object, in the order the parsed object holds them; nothing
/// where the text is no JSON object with an `installs` object.
pub uninterp spec fn json_installs_keys(text: Seq<char>) -> Option<Seq<Seq<char>>>;

/// Parses `text` with `serde_json::from_str` into a `serde_json::Value`,
/// takes its `installs` field (`Value::get`), that field's object
/// (`Value::as_object`) and the object's keys. The contract claims only
/// that the result depends on the text alone, under the name
/// `json_installs_keys`; what `serde_json` accepts as JSON, and the order of
/// the keys, are left unsaid.
#[verifier::external_body]
pub(crate) fn installs_keys(text: &str) -> (r: Option<Vec<String>>)
    ensures
        match r {
            Some(v) => json_installs_keys(text@) == Some(strings_view(v@)),
            None => json_installs_keys(text@) is None,
        },
{
    let value: serde_json::Value = serde_json::from_str(text).ok()?;
    Some(value.get("installs")?.as_object()?.keys().cloned().collect())
}

/// The packages installed with cargo, from the text of its crates file:
/// the packages of the keys of its `installs` object. `None` where the text
/// holds no such object, or a key holds no word.
pub fn crates_of_file(text: &str) -> (r: Option<Vec<Package>>)
    ensures
        match json_installs_keys(text@) {
            Some(keys) => if all_have_words(keys) {
                r matches Some(p) && packages_view(p@) == installed_crates(keys) && distinct_packages(
                    packages_view(p@),
                )
            } else {
                r is None
            },
            None => r is None,
        },
{
    let keys = match installs_keys(text) {
        Some(k) => k,
        None => return None,
    };
    let ghost kv = strings_view(keys@);
    let mut i: usize = 0;
    while i < keys.len()
        invariant
            i <= keys@.len(),
            kv == strings_view(keys@),
            json_installs_keys(text@) == Some(kv),
            forall|k: int| 0 <= k < i ==> has_word(#[trigger] keys@[k]@),
        decreases keys.len() - i,
    {
        let w = first_word_of(keys[i].as_str());
        if crate::text::str_to_chars(w.as_str()).len() == 0 {
            proof {
                assert(kv[i as int] == keys@[i as int]@);
                assert(!has_word(kv[i as int]));
                assert(json_installs_keys(text@) == Some(kv));
                assert(!all_have_words(kv));
            }
            return None;
        }
        i = i + 1;
    }
    proof {
        assert(keys@.map_values(|k: String| k@) =~= kv);
        assert forall|k: int| 0 <= k < kv.len() implies has_word(#[trigger] kv[k]) by {
            assert(kv[k] == keys@[k]@);
        }
    }
    Some(extract_packages(&keys))
}

/// The crates file, `$HOME/.cargo/.crates2.json`, from the value of `$HOME`.
pub fn get_crates_file(home: Option<String>) -> (r: Result<String, PathError>)
    ensures
        location_result(r, match opt_chars(home) {
            Some(h) => Some(push_path(push_path(h, ".cargo"@), ".crates2.json"@)),
            None => None,
        }),
{
    let h = crate::path::get_home_dir(home)?;
    let dir = path_push(h.as_str(), ".cargo");
    Ok(path_push(dir.as_str(), ".crates2.json"))
}

impl Rust {
    /// The backend with no packages.
    pub fn new() -> (r: Self)
        ensures
            r.packages@.len() == 0,
    {
        Self { packages: Vec::new() }
    }

    /// The binary to run.
    pub fn get_binary(&self) -> (r: Text)
        ensures
            r@ == "cargo"@,
    {
        BINARY
    }

    /// The section of group files that this backend reads.
    pub fn get_section(&self) -> (r: Text)
        ensures
            r@ == "rust"@,
    {
        SECTION
    }

    /// The switches that show information on packages.
    pub fn get_switches_info(&self) -> (r: Switches)
        ensures
            words(r@) == seq!["search"@, "--limit"@, "1"@],
    {
        &["search", "--limit", "1"]
    }

    /// The switches that install packages.
    pub fn get_switches_install(&self) -> (r: Switches)
        ensures
            words(r@) == seq!["install"@],
    {
        &["install"]
    }

    /// The switches that remove packages.
    pub fn get_switches_remove(&self) -> (r: Switches)
        ensures
            words(r@) == seq!["uninstall"@],
    {
        &["uninstall"]
    }

    /// The switches that skip confirmation (none are needed).
    pub fn get_switches_noconfirm(&self) -> (r: Switches)
        ensures
            words(r@) == Seq::<Seq<char>>::empty(),
    {
        &[]
    }

    /// Whether packages can be marked as dependencies.
    pub fn supports_as_dependency(&self) -> (r: bool)
        ensures
            !r,
    {
        SUPPORTS_AS_DEPENDENCY
    }

    /// Add the packages of the `rust` section of every group to the managed
    /// packages.
    pub fn load(&mut self, groups: &Vec<Group>)
        requires
            distinct_packages(packages_view(old(self).packages@)),
        ensures
            packages_view(final(self).packages@) == add_groups(packages_view(old(self).packages@), groups_view(groups@), "rust"@),
    {
        load_section(&mut self.packages, groups, SECTION);
    }

    /// The command that installs `packages`.
    pub fn install_packages(&self, packages: &[Package]) -> (r: Vec<String>)
        ensures
            strings_view(r@) == seq!["cargo"@, "install"@] + package_args(packages_view(packages@)),
    {
        let r = package_command(self.get_binary(), self.get_switches_install(), &[], false, packages);
        proof {
            assert(seq!["cargo"@] + seq!["install"@] + Seq::<Seq<char>>::empty() =~= seq!["cargo"@, "install"@]);
        }
        r
    }

    /// The command that removes `packages`.
    pub fn remove_packages(&self, packages: &[Package]) -> (r: Vec<String>)
        ensures
            strings_view(r@) == seq!["cargo"@, "uninstall"@] + package_args(packages_view(packages@)),
    {
        let r = package_command(self.get_binary(), self.get_switches_remove(), &[], false, packages);
        proof {
            assert(seq!["cargo"@] + seq!["uninstall"@] + Seq::<Seq<char>>::empty() =~= seq!["cargo"@, "uninstall"@]);
        }
        r
    }

    /// The command that shows information on `package`.
    pub fn show_package_info(&self, package: &Package) -> (r: Vec<String>)
        ensures
            strings_view(r@) == seq!["cargo"@, "search"@, "--limit"@, "1"@, package_display(package@)],
    {
        info_command(self.get_binary(), self.get_switches_info(), package)
    }
}

impl Default for Rust {
    /// The backend with no packages.
    fn default() -> (r: Self)
        ensures
            r.packages@.len() == 0,
    {
        Self::new()
    }
}

} // verus!
