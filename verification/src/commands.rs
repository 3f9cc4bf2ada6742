//! The decisions behind the commands: which backends are asked, which
//! groups a command works on, where new and exported group files go, and
//! the texts the commands show.

use vstd::prelude::*;
use crate::errors::Error;
use crate::group::{Group, GroupView, find_group_index, group_index, groups_view};
use crate::path::{path_push, push_path};
use crate::text::{chars_to_string, push_str_chars, str_eq};

verus! {

/// Whether `names` holds `name`.
pub open spec fn holds_name(names: Seq<Seq<char>>, name: Seq<char>) -> bool {
    exists|i: int| 0 <= i < names.len() && names[i] == name
}

/// The words of a list of strings.
pub open spec fn names_view(v: Seq<String>) -> Seq<Seq<char>> {
    v.map_values(|s: String| s@)
}

/// Whether `name` is among `names`.
pub fn contains_name(names: &Vec<String>, name: &str) -> (r: bool)
    ensures
        r == holds_name(names_view(names@), name@),
{
    let mut i: usize = 0;
    while i < names.len()
        invariant
            i <= names@.len(),
            forall|j: int| 0 <= j < i ==> names@[j]@ != name@,
        decreases names.len() - i,
    {
        if str_eq(names[i].as_str(), name) {
            proof {
                assert(names_view(names@)[i as int] == name@);
            }
            return true;
        }
        i = i + 1;
    }
    proof {
        assert forall|j: int| 0 <= j < names_view(names@).len() implies names_view(names@)[j] != name@ by {
            assert(names_view(names@)[j] == names@[j]@);
        }
    }
    false
}

/// Whether a backend is asked for its packages: it is not disabled in the
/// configuration, and its binary is found.
pub fn backend_is_queried(section: &str, disabled_backends: &Vec<String>, binary_found: bool) -> (r: bool)
    ensures
        r == (!holds_name(names_view(disabled_backends@), section@) && binary_found),
{
    !contains_name(disabled_backends, section) && binary_found
}

/// The names that no group carries, in order.
pub open spec fn missing_names(names: Seq<Seq<char>>, gs: Seq<GroupView>) -> Seq<Seq<char>> {
    names.filter(|n: Seq<char>| group_index(gs, n) < 0)
}

/// The groups `names` ask to show, by index, in the order of the names;
/// fails with every name that no group carries, in order.
pub fn select_groups(names: &Vec<String>, groups: &Vec<Group>) -> (r: Result<Vec<usize>, Vec<String>>)
    ensures
        ({
            let nv = names_view(names@);
            let gv = groups_view(groups@);
            match r {
                Ok(found) => missing_names(nv, gv).len() == 0 && found@.len() == names@.len() && forall|i: int|
                    0 <= i < found@.len() ==> found@[i] == group_index(gv, nv[i]),
                Err(missing) => missing_names(nv, gv).len() > 0 && names_view(missing@) == missing_names(nv, gv),
            }
        }),
{
    let ghost nv = names_view(names@);
    let ghost gv = groups_view(groups@);
    let ghost miss = |n: Seq<char>| group_index(gv, n) < 0;
    let mut found: Vec<usize> = Vec::new();
    let mut missing: Vec<String> = Vec::new();
    let mut i: usize = 0;
    proof {
        assert(nv.take(0).filter(miss) =~= Seq::<Seq<char>>::empty());
        assert(names_view(missing@) =~= Seq::<Seq<char>>::empty());
    }
    while i < names.len()
        invariant
            i <= names@.len(),
            nv == names_view(names@),
            gv == groups_view(groups@),
            miss == (|n: Seq<char>| group_index(gv, n) < 0),
            names_view(missing@) == nv.take(i as int).filter(miss),
            missing@.len() == 0 ==> found@.len() == i,
            missing@.len() == 0 ==> forall|k: int| 0 <= k < found@.len() ==> found@[k] == group_index(gv, nv[k]),
        decreases names.len() - i,
    {
        proof {
            assert(nv.take(i + 1) =~= nv.take(i as int).push(nv[i as int]));
            nv.take(i as int).lemma_filter_push(nv[i as int], miss);
            assert(nv[i as int] == names@[i as int]@);
        }
        match find_group_index(groups, &names[i]) {
            Some(k) => {
                found.push(k);
            },
            None => {
                let ghost before = missing@;
                missing.push(names[i].clone());
                proof {
                    assert(names_view(missing@) =~= names_view(before).push(nv[i as int]));
                }
            },
        }
        i = i + 1;
    }
    proof {
        assert(nv.take(nv.len() as int) =~= nv);
    }
    if missing.len() > 0 {
        Err(missing)
    } else {
        Ok(found)
    }
}

/// `n` dashes.
pub open spec fn dashes(n: nat) -> Seq<char> {
    Seq::new(n, |i: int| '-')
}

/// The heading over a group's content where several groups are shown: the
/// name, then a line of one dash per byte of the name.
pub open spec fn group_heading_text(name: &str) -> Seq<char> {
    name@ + seq!['\n'] + dashes(name.len() as nat) + seq!['\n']
}

/// The heading over a group's content where several groups are shown.
pub fn group_heading(name: &str) -> (r: String)
    ensures
        r@ == group_heading_text(name),
{
    let mut out: Vec<char> = Vec::new();
    push_str_chars(&mut out, name);
    out.push('\n');
    let n = name.len();
    let ghost start = out@;
    let mut i: usize = 0;
    while i < n
        invariant
            i <= n,
            n == name.len(),
            out@ == start + dashes(i as nat),
        decreases n - i,
    {
        out.push('-');
        i = i + 1;
        proof {
            assert(out@ =~= start + dashes(i as nat));
        }
    }
    out.push('\n');
    proof {
        assert(out@ =~= group_heading_text(name));
    }
    chars_to_string(out.as_slice())
}

/// Whether a group name stands for a directory (`.` or `..`).
pub open spec fn invalid_group_name(name: Seq<char>) -> bool {
    name == "."@ || name == ".."@
}

/// Index of the first invalid name, or `-1`.
pub open spec fn first_invalid_name(names: Seq<Seq<char>>) -> int
    decreases names.len(),
{
    if names.len() == 0 {
        -1
    } else {
        let prev = first_invalid_name(names.drop_last());
        if prev >= 0 {
            prev
        } else if invalid_group_name(names.last()) {
            names.len() - 1
        } else {
            -1
        }
    }
}

pub proof fn lemma_first_invalid_prefix(names: Seq<Seq<char>>, k: int)
    requires
        0 <= k <= names.len(),
        first_invalid_name(names.take(k)) >= 0,
    ensures
        first_invalid_name(names) == first_invalid_name(names.take(k)),
    decreases names.len() - k,
{
    if k < names.len() {
        assert(names.take(k + 1).drop_last() =~= names.take(k));
        lemma_first_invalid_prefix(names, k + 1);
    } else {
        assert(names.take(k) =~= names);
    }
}

/// The paths of new group files: each name joined onto the group
/// directory. Fails with the first name that is `.` or `..`.
pub fn new_group_paths(group_dir: &str, names: &Vec<String>) -> (r: Result<Vec<String>, Error>)
    ensures
        ({
            let nv = names_view(names@);
            let m = first_invalid_name(nv);
            match r {
                Ok(paths) => m == -1 && names_view(paths@) == nv.map_values(|n: Seq<char>| push_path(group_dir@, n)),
                Err(e) => m >= 0 && e == Error::InvalidGroupName(names@[m]),
            }
        }),
{
    let ghost nv = names_view(names@);
    let mut i: usize = 0;
    proof {
        assert(nv.take(0) =~= Seq::<Seq<char>>::empty());
    }
    while i < names.len()
        invariant
            i <= names@.len(),
            nv == names_view(names@),
            first_invalid_name(nv.take(i as int)) == -1,
        decreases names.len() - i,
    {
        proof {
            assert(nv.take(i + 1).drop_last() =~= nv.take(i as int));
            assert(nv.take(i + 1).last() == names@[i as int]@);
        }
        if str_eq(names[i].as_str(), ".") || str_eq(names[i].as_str(), "..") {
            proof {
                lemma_first_invalid_prefix(nv, i + 1);
            }
            return Err(Error::InvalidGroupName(names[i].clone()));
        }
        i = i + 1;
    }
    proof {
        assert(nv.take(nv.len() as int) =~= nv);
    }
    let mut paths: Vec<String> = Vec::new();
    let mut j: usize = 0;
    while j < names.len()
        invariant
            j <= names@.len(),
            nv == names_view(names@),
            names_view(paths@) == nv.take(j as int).map_values(|n: Seq<char>| push_path(group_dir@, n)),
        decreases names.len() - j,
    {
        let ghost before = paths@;
        paths.push(path_push(group_dir, names[j].as_str()));
        proof {
            assert(nv[j as int] == names@[j as int]@);
            assert(names_view(paths@) =~= names_view(before).push(push_path(group_dir@, nv[j as int])));
            assert(nv.take(j + 1).map_values(|n: Seq<char>| push_path(group_dir@, n)) =~= nv.take(j as int).map_values(
                |n: Seq<char>| push_path(group_dir@, n),
            ).push(push_path(group_dir@, nv[j as int])));
        }
        j = j + 1;
    }
    proof {
        assert(nv.take(nv.len() as int) =~= nv);
    }
    Ok(paths)
}

/// Where an exported group file goes: its name joined onto the output
/// directory.
pub fn export_path(output_dir: &str, group_name: &str) -> (r: String)
    ensures
        r@ == push_path(output_dir@, group_name@),
{
    path_push(output_dir, group_name)
}

/// Whether a group file may be exported to a place where a file may
/// already be: only where none is, unless `force` asks to overwrite it.
pub fn may_export(force: bool, target_exists: bool) -> (r: bool)
    ensures
        r == (force || !target_exists),
{
    force || !target_exists
}

/// The version: `<version>`, or `<version> (<hash>)` where the build
/// knows its commit.
pub open spec fn version_text(version: Seq<char>, hash: Seq<char>) -> Seq<char> {
    if hash.len() == 0 {
        version
    } else {
        version + " ("@ + hash + ")"@
    }
}

/// The version, with the commit hash where there is one.
pub fn get_version_string(version: &str, hash: &str) -> (r: String)
    ensures
        r@ == version_text(version@, hash@),
{
    let h = crate::text::str_to_chars(hash);
    let mut out: Vec<char> = Vec::new();
    push_str_chars(&mut out, version);
    if h.len() > 0 {
        push_str_chars(&mut out, " (");
        push_str_chars(&mut out, hash);
        push_str_chars(&mut out, ")");
    }
    chars_to_string(out.as_slice())
}

/// One line per backend: a newline, two spaces and the backend.
pub open spec fn backend_lines(backends: Seq<Seq<char>>) -> Seq<char>
    decreases backends.len(),
{
    if backends.len() == 0 {
        seq![]
    } else {
        backend_lines(backends.drop_last()) + "\n  "@ + backends.last()
    }
}

/// The program's name, its version and the backends it supports.
pub open spec fn name_and_version_text(version: Seq<char>, backends: Seq<Seq<char>>) -> Seq<char> {
    "pacdef, version: "@ + version + "\n"@ + "supported backends:"@ + backend_lines(backends)
}

/// The program's name, its version and the backends it supports.
pub fn get_name_and_version(version: &str, backends: &Vec<&str>) -> (r: String)
    ensures
        r@ == name_and_version_text(version@, backends@.map_values(|b: &str| b@)),
{
    let ghost bv = backends@.map_values(|b: &str| b@);
    let mut out: Vec<char> = Vec::new();
    push_str_chars(&mut out, "pacdef, version: ");
    push_str_chars(&mut out, version);
    push_str_chars(&mut out, "\n");
    push_str_chars(&mut out, "supported backends:");
    let ghost start = out@;
    let mut i: usize = 0;
    proof {
        assert(out@ =~= start + backend_lines(bv.take(0)));
    }
    while i < backends.len()
        invariant
            i <= backends@.len(),
            bv == backends@.map_values(|b: &str| b@),
            out@ == start + backend_lines(bv.take(i as int)),
        decreases backends.len() - i,
    {
        push_str_chars(&mut out, "\n  ");
        push_str_chars(&mut out, backends[i]);
        proof {
            assert(bv.take(i + 1).drop_last() =~= bv.take(i as int));
            assert(bv.take(i + 1).last() == backends@[i as int]@);
            assert(out@ =~= start + backend_lines(bv.take(i + 1)));
        }
        i = i + 1;
    }
    proof {
        assert(bv.take(bv.len() as int) =~= bv);
        assert(start =~= "pacdef, version: "@ + version@ + "\n"@ + "supported backends:"@);
    }
    chars_to_string(out.as_slice())
}

} // verus!

verus! {

/// The names of the groups, sorted.
pub fn sorted_group_names(groups: &Vec<Group>) -> (r: Vec<String>)
    ensures
        crate::order::sorted_strings(names_view(r@)),
        names_view(r@).to_multiset() == groups_view(groups@).map_values(|g: GroupView| g.0).to_multiset(),
{
    let ghost gv = groups_view(groups@).map_values(|g: GroupView| g.0);
    let mut names: Vec<String> = Vec::new();
    let mut i: usize = 0;
    while i < groups.len()
        invariant
            i <= groups@.len(),
            gv == groups_view(groups@).map_values(|g: GroupView| g.0),
            names_view(names@) == gv.take(i as int),
        decreases groups.len() - i,
    {
        let ghost before = names@;
        names.push(groups[i].name.clone());
        proof {
            assert(gv[i as int] == groups@[i as int].name@);
            assert(names_view(names@) =~= names_view(before).push(gv[i as int]));
            assert(gv.take(i + 1) =~= gv.take(i as int).push(gv[i as int]));
        }
        i = i + 1;
    }
    proof {
        assert(gv.take(gv.len() as int) =~= gv);
        assert(names@.map_values(|s: String| s@) =~= names_view(names@));
    }
    let r = crate::order::sort_strings(names);
    proof {
        assert(r@.map_values(|s: String| s@) =~= names_view(r@));
    }
    r
}

} // verus!

verus! {

/// The first value that is set, in order.
pub open spec fn first_set(values: Seq<Option<String>>) -> Option<Seq<char>>
    decreases values.len(),
{
    if values.len() == 0 {
        None
    } else {
        match values[0] {
            Some(v) => Some(v@),
            None => first_set(values.drop_first()),
        }
    }
}

/// The first of the values of some environment variables, in their order,
/// that is set.
pub fn check_vars_in_order(values: &Vec<Option<String>>) -> (r: Option<String>)
    ensures
        match r {
            Some(v) => first_set(values@) == Some(v@),
            None => first_set(values@) is None,
        },
{
    let mut i: usize = 0;
    proof {
        assert(values@.skip(0) =~= values@);
    }
    while i < values.len()
        invariant
            i <= values@.len(),
            first_set(values@) == first_set(values@.skip(i as int)),
        decreases values.len() - i,
    {
        proof {
            assert(values@.skip(i as int)[0] == values@[i as int]);
            assert(values@.skip(i as int).drop_first() =~= values@.skip(i + 1));
        }
        match &values[i] {
            Some(v) => {
                return Some(v.clone());
            },
            None => {},
        }
        i = i + 1;
    }
    None
}

/// The editor: the value of `$EDITOR`, or else that of `$VISUAL`.
pub fn get_editor(editor: Option<String>, visual: Option<String>) -> (r: Option<String>)
    ensures
        r == (match editor {
            Some(e) => Some(e),
            None => visual,
        }),
{
    match editor {
        Some(e) => Some(e),
        None => visual,
    }
}

/// Whether the reply to `Continue? [Y/n]` goes ahead: it is blank, or it
/// holds a `y` in either case.
pub open spec fn confirms(reply: Seq<char>) -> bool {
    crate::text::trim(reply).len() == 0 || exists|i: int| 0 <= i < reply.len() && (reply[i] == 'y' || reply[i] == 'Y')
}

/// Whether the user's reply goes ahead.
pub fn user_confirmed(reply: &str) -> (r: bool)
    ensures
        r == confirms(reply@),
{
    let chars = crate::text::str_to_chars(reply);
    let t = crate::text::trim_chars(chars.as_slice());
    if t.len() == 0 {
        return true;
    }
    let mut i: usize = 0;
    while i < chars.len()
        invariant
            i <= chars@.len(),
            chars@ == reply@,
            forall|j: int| 0 <= j < i ==> chars@[j] != 'y' && chars@[j] != 'Y',
        decreases chars.len() - i,
    {
        if chars[i] == 'y' || chars[i] == 'Y' {
            return true;
        }
        i = i + 1;
    }
    false
}

/// The group files that names stand for: each name joined onto the group
/// directory.
pub fn get_assumed_group_file_names(group_dir: &str, names: &Vec<String>) -> (r: Vec<String>)
    ensures
        names_view(r@) == names_view(names@).map_values(|n: Seq<char>| push_path(group_dir@, n)),
{
    let ghost nv = names_view(names@);
    let mut paths: Vec<String> = Vec::new();
    let mut j: usize = 0;
    while j < names.len()
        invariant
            j <= names@.len(),
            nv == names_view(names@),
            names_view(paths@) == nv.take(j as int).map_values(|n: Seq<char>| push_path(group_dir@, n)),
        decreases names.len() - j,
    {
        let ghost before = paths@;
        paths.push(path_push(group_dir, names[j].as_str()));
        proof {
            assert(nv[j as int] == names@[j as int]@);
            assert(names_view(paths@) =~= names_view(before).push(push_path(group_dir@, nv[j as int])));
            assert(nv.take(j + 1).map_values(|n: Seq<char>| push_path(group_dir@, n)) =~= nv.take(j as int).map_values(
                |n: Seq<char>| push_path(group_dir@, n),
            ).push(push_path(group_dir@, nv[j as int])));
        }
        j = j + 1;
    }
    proof {
        assert(nv.take(nv.len() as int) =~= nv);
    }
    paths
}

/// How a package manager's run ended, as far as the program goes on.
#[derive(Debug, Clone, Copy, PartialEq, Eq, Structural)]
pub enum RunOutcome {
    /// It exited with code 0.
    Success,
    /// It exited with another code (the code).
    Failed(i32),
    /// It was stopped by a signal.
    Killed,
}

/// What an exit code means: success for 0, failure for another code, and
/// a stop by a signal where there is no code.
pub fn run_outcome(code: Option<i32>) -> (r: RunOutcome)
    ensures
        r == (match code {
            Some(0) => RunOutcome::Success,
            Some(c) => RunOutcome::Failed(c),
            None => RunOutcome::Killed,
        }),
{
    match code {
        Some(0) => RunOutcome::Success,
        Some(c) => RunOutcome::Failed(c),
        None => RunOutcome::Killed,
    }
}

} // verus!
