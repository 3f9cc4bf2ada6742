//! Group files read as the packages of every backend: a file holds
//! sections headed `[<Backend>]`, each followed by package lines; the
//! groups of a directory, by name.

use vstd::prelude::*;
use crate::backend::rustup::RustupIdView;
use crate::group::{extract_group_name, group_name, valid_group_path};
use crate::packages::{
    AnyBackend, PackagesInstall, PackagesView, any_backend_of, backend_ids, insert_view, insertable,
    lemma_union_per_backend, union_view,
};
use crate::text::{
    chars_to_string, copy_range, find_char, find_char_from, lines_of, str_to_chars, trim, trim_chars,
    trim_start,
};

verus! {

/// Why a group file could not be read.
#[derive(Debug)]
pub enum ParseGroupError {
    /// A header line does not end in `]` (the line).
    InvalidBackend(String),
    /// A package line stands under no known backend (the line and its
    /// number, counted from zero).
    UnknownSection(String, usize),
    /// A package does not name a package of its backend (the package).
    InvalidPackage(String),
}

/// An error seen as its kind, its text and its line number.
pub open spec fn parse_error_view(e: ParseGroupError) -> (int, Seq<char>, int) {
    match e {
        ParseGroupError::InvalidBackend(l) => (0, l@, 0),
        ParseGroupError::UnknownSection(l, n) => (1, l@, n as int),
        ParseGroupError::InvalidPackage(p) => (2, p@, 0),
    }
}

/// No packages for any backend.
pub open spec fn empty_view() -> PackagesView {
    PackagesView {
        arch: Set::empty(),
        cargo: Set::empty(),
        dnf: Set::empty(),
        flatpak: Set::empty(),
        pip: Set::empty(),
        pipx: Set::empty(),
        rustup: Set::empty(),
        xbps: Set::empty(),
    }
}

/// Whether a line is skipped: blank, or a comment.
pub open spec fn skipped_line(line: Seq<char>) -> bool {
    let t = trim_start(line);
    t.len() == 0 || t[0] == '#'
}

/// The package a package line declares: the text before any `#`, trimmed.
pub open spec fn package_of_line(line: Seq<char>) -> Seq<char> {
    trim(line.take(find_char(line, '#')))
}

/// The rustup identifier a package names (a placeholder where it names
/// none).
pub open spec fn rustup_id_or_default(p: Seq<char>) -> RustupIdView {
    match crate::backend::rustup::id_of_text(p) {
        Some(v) => v,
        None => (0, seq![], seq![]),
    }
}

/// The reading state after one more line: the packages so far and the
/// backend whose section is open.
pub open spec fn parse_step(acc: PackagesView, prev: Option<AnyBackend>, line: Seq<char>, count: int) -> Result<
    (PackagesView, Option<AnyBackend>),
    (int, Seq<char>, int),
> {
    if skipped_line(line) {
        Ok((acc, prev))
    } else if line[0] == '[' {
        let rest = line.skip(1);
        if rest.len() > 0 && rest.last() == ']' {
            Ok((acc, any_backend_of(rest.drop_last())))
        } else {
            Err((0, line, 0))
        }
    } else {
        let p = package_of_line(line);
        match prev {
            None => Err((1, line, count)),
            Some(b) => if insertable(b, p) {
                Ok((insert_view(acc, b, p, rustup_id_or_default(p)), prev))
            } else {
                Err((2, p, 0))
            },
        }
    }
}

/// The reading state after the first `n` lines.
pub open spec fn parse_state(lines: Seq<Seq<char>>, n: int) -> Result<(PackagesView, Option<AnyBackend>), (int, Seq<char>, int)>
    decreases n,
{
    if n <= 0 {
        Ok((empty_view(), None))
    } else {
        match parse_state(lines, n - 1) {
            Err(e) => Err(e),
            Ok(s) => parse_step(s.0, s.1, lines[n - 1], n - 1),
        }
    }
}

/// What a group file declares: the packages of each backend, or the first
/// error.
pub open spec fn parse_group_spec(content: Seq<char>) -> Result<PackagesView, (int, Seq<char>, int)> {
    let lines = lines_of(content);
    match parse_state(lines, lines.len() as int) {
        Ok(s) => Ok(s.0),
        Err(e) => Err(e),
    }
}

pub proof fn lemma_parse_state_err(lines: Seq<Seq<char>>, n: int, m: int)
    requires
        0 <= n <= m,
        parse_state(lines, n) is Err,
    ensures
        parse_state(lines, m) == parse_state(lines, n),
    decreases m - n,
{
    if m > n {
        lemma_parse_state_err(lines, n, m - 1);
    }
}

/// The packages of every backend that a group file declares. Blank and
/// comment lines are skipped; `[<Backend>]` opens the section of a backend
/// (of none, where the name is not one); other lines declare the package
/// before any `#`, trimmed, in the open section.
pub fn parse_group(content: &str) -> (r: Result<PackagesInstall, ParseGroupError>)
    ensures
        match r {
            Ok(p) => p.wf() && parse_group_spec(content@) == Ok::<PackagesView, (int, Seq<char>, int)>(p@),
            Err(e) => parse_group_spec(content@) == Err::<PackagesView, (int, Seq<char>, int)>(parse_error_view(e)),
        },
{
    let lines = crate::backend::output_lines(content);
    let ghost lv = crate::backend::strings_view(lines@);
    let mut packages = PackagesInstall::new();
    let mut prev: Option<AnyBackend> = None;
    let mut i: usize = 0;
    proof {
        assert(packages@ == empty_view()) by {
            assert(packages@.arch =~= Set::<Seq<char>>::empty());
            assert(packages@.cargo =~= Set::<Seq<char>>::empty());
            assert(packages@.dnf =~= Set::<Seq<char>>::empty());
            assert(packages@.flatpak =~= Set::<Seq<char>>::empty());
            assert(packages@.pip =~= Set::<Seq<char>>::empty());
            assert(packages@.pipx =~= Set::<Seq<char>>::empty());
            assert(packages@.rustup =~= Set::<RustupIdView>::empty());
            assert(packages@.xbps =~= Set::<Seq<char>>::empty());
        }
    }
    while i < lines.len()
        invariant
            i <= lines@.len(),
            lv == crate::backend::strings_view(lines@),
            lv == lines_of(content@),
            packages.wf(),
            parse_state(lv, i as int) == Ok::<(PackagesView, Option<AnyBackend>), (int, Seq<char>, int)>((packages@, prev)),
        decreases lines.len() - i,
    {
        let line = lines[i].as_str();
        let l = str_to_chars(line);
        proof {
            assert(lv[i as int] == l@);
        }
        let ts = crate::text::trim_start_chars(l.as_slice());
        if ts.len() == 0 || ts[0] == '#' {
            i = i + 1;
            continue;
        }
        proof {
            crate::text::lemma_trim_start_nonempty(l@);
        }
        if l[0] == '[' {
            let rest = copy_range(l.as_slice(), 1, l.len());
            proof {
                assert(rest@ =~= l@.skip(1));
            }
            if rest.len() > 0 && rest[rest.len() - 1] == ']' {
                let name = chars_to_string(copy_range(rest.as_slice(), 0, rest.len() - 1).as_slice());
                proof {
                    assert(name@ =~= rest@.drop_last());
                }
                prev = AnyBackend::from_str(name.as_str());
            } else {
                proof {
                    lemma_parse_state_err(lv, i + 1, lv.len() as int);
                }
                return Err(ParseGroupError::InvalidBackend(line.to_owned()));
            }
        } else {
            let k = find_char_from(l.as_slice(), '#', 0);
            proof {
                assert(l@.skip(0) =~= l@);
            }
            let before = copy_range(l.as_slice(), 0, k);
            proof {
                assert(before@ =~= l@.take(k as int));
            }
            let p = chars_to_string(trim_chars(before.as_slice()).as_slice());
            match prev {
                None => {
                    proof {
                        lemma_parse_state_err(lv, i + 1, lv.len() as int);
                    }
                    return Err(ParseGroupError::UnknownSection(line.to_owned(), i));
                },
                Some(b) => {
                    let pc = p.clone();
                    if !packages.insert_backend_package(b, p) {
                        proof {
                            lemma_parse_state_err(lv, i + 1, lv.len() as int);
                        }
                        return Err(ParseGroupError::InvalidPackage(pc));
                    }
                },
            }
        }
        i = i + 1;
    }
    Ok(packages)
}

/// The groups of a directory, by name, each with the packages of every
/// backend it declares; names kept sorted.
#[derive(Debug)]
pub struct Groups {
    pub entries: Vec<(String, PackagesInstall)>,
}

/// The names of the groups, in order.
pub open spec fn entry_names(v: Seq<(String, PackagesInstall)>) -> Seq<Seq<char>> {
    v.map_values(|e: (String, PackagesInstall)| e.0@)
}

/// The groups, each name with what its group declares.
pub open spec fn entries_map(v: Seq<(String, PackagesInstall)>) -> Map<Seq<char>, PackagesView>
    decreases v.len(),
{
    if v.len() == 0 {
        Map::empty()
    } else {
        entries_map(v.drop_last()).insert(v.last().0@, v.last().1@)
    }
}

/// Where no two entries share a name, each name maps to its entry's
/// packages, and the names are those of the entries.
pub proof fn lemma_entries_map(v: Seq<(String, PackagesInstall)>)
    requires
        forall|a: int, b: int| 0 <= a < b < v.len() ==> v[a].0@ != v[b].0@,
    ensures
        entries_map(v).dom() == entry_names(v).to_set(),
        forall|i: int| 0 <= i < v.len() ==> #[trigger] entries_map(v)[v[i].0@] == v[i].1@,
    decreases v.len(),
{
    if v.len() > 0 {
        let d = v.drop_last();
        assert forall|a: int, b: int| 0 <= a < b < d.len() implies d[a].0@ != d[b].0@ by {
            assert(d[a] == v[a] && d[b] == v[b]);
        }
        lemma_entries_map(d);
        assert(entry_names(v) =~= entry_names(d) + seq![v.last().0@]);
        Seq::lemma_to_set_insert_commutes(entry_names(d), v.last().0@);
        assert forall|i: int| 0 <= i < v.len() implies #[trigger] entries_map(v)[v[i].0@] == v[i].1@ by {
            if i < v.len() - 1 {
                assert(d[i] == v[i]);
                assert(v[i].0@ != v[v.len() - 1].0@);
            }
        }
    } else {
        assert(entry_names(v).to_set() =~= Set::<Seq<char>>::empty());
    }
}

/// The groups that the files make: each file's group under its name, a
/// later file replacing an earlier one of the same name.
pub open spec fn groups_of_files_map(dir: Seq<char>, files: Seq<(String, String)>) -> Map<Seq<char>, PackagesView>
    decreases files.len(),
{
    if files.len() == 0 {
        Map::empty()
    } else {
        let f = files.last();
        groups_of_files_map(dir, files.drop_last()).insert(
            group_name(f.0@, dir),
            match parse_group_spec(f.1@) {
                Ok(v) => v,
                Err(e) => empty_view(),
            },
        )
    }
}

/// The packages of all groups together.
pub open spec fn union_all(v: Seq<(String, PackagesInstall)>) -> PackagesView
    decreases v.len(),
{
    if v.len() == 0 {
        empty_view()
    } else {
        union_view(union_all(v.drop_last()), v.last().1@)
    }
}

/// The packages of all groups together are exactly the packages some group
/// declares, backend by backend: an identifier is in a backend's joined set
/// exactly when one of the groups holds it for that backend.
pub proof fn lemma_union_all_holds_each_group(v: Seq<(String, PackagesInstall)>, b: AnyBackend, id: Seq<char>, rid: RustupIdView)
    ensures
        backend_ids(union_all(v), b).contains(id) <==> exists|i: int| 0 <= i < v.len() && backend_ids(
            (#[trigger] v[i]).1@,
            b,
        ).contains(id),
        union_all(v).rustup.contains(rid) <==> exists|i: int| 0 <= i < v.len() && (#[trigger] v[i]).1@.rustup.contains(rid),
    decreases v.len(),
{
    if v.len() > 0 {
        let d = v.drop_last();
        lemma_union_all_holds_each_group(d, b, id, rid);
        lemma_union_per_backend(union_all(d), v.last().1@);
        if exists|i: int| 0 <= i < v.len() && backend_ids((#[trigger] v[i]).1@, b).contains(id) {
            let i = choose|i: int| 0 <= i < v.len() && backend_ids((#[trigger] v[i]).1@, b).contains(id);
            if i < d.len() {
                assert(d[i] == v[i]);
            }
        }
        if backend_ids(union_all(d), b).contains(id) {
            let i = choose|i: int| 0 <= i < d.len() && backend_ids((#[trigger] d[i]).1@, b).contains(id);
            assert(d[i] == v[i]);
        }
        if exists|i: int| 0 <= i < v.len() && (#[trigger] v[i]).1@.rustup.contains(rid) {
            let i = choose|i: int| 0 <= i < v.len() && (#[trigger] v[i]).1@.rustup.contains(rid);
            if i < d.len() {
                assert(d[i] == v[i]);
            }
        }
        if union_all(d).rustup.contains(rid) {
            let i = choose|i: int| 0 <= i < d.len() && (#[trigger] d[i]).1@.rustup.contains(rid);
            assert(d[i] == v[i]);
        }
        assert(v[v.len() - 1] == v.last());
    } else {
        assert(backend_ids(empty_view(), b) =~= Set::<Seq<char>>::empty());
    }
}

pub proof fn lemma_strictly_sorted_distinct(v: Seq<(String, PackagesInstall)>)
    requires
        crate::packages::strictly_sorted(entry_names(v)),
    ensures
        forall|a: int, b: int| 0 <= a < b < v.len() ==> v[a].0@ != v[b].0@,
{
    assert forall|a: int, b: int| 0 <= a < b < v.len() implies v[a].0@ != v[b].0@ by {
        assert(entry_names(v)[a] == v[a].0@ && entry_names(v)[b] == v[b].0@);
        crate::order::lemma_seq_lt_irreflexive(v[a].0@);
    }
}

impl Groups {
    /// Names strictly sorted, and every group's sets sorted.
    pub open spec fn wf(&self) -> bool {
        &&& crate::packages::strictly_sorted(entry_names(self.entries@))
        &&& forall|i: int| 0 <= i < self.entries@.len() ==> (#[trigger] self.entries@[i]).1.wf()
    }

    /// No groups.
    pub fn new() -> (r: Self)
        ensures
            r.wf(),
            r.entries@.len() == 0,
    {
        Groups { entries: Vec::new() }
    }

    /// Add the group `name`, replacing a group of the same name.
    pub fn insert(&mut self, name: String, group: PackagesInstall)
        requires
            old(self).wf(),
            group.wf(),
        ensures
            final(self).wf(),
            entry_names(final(self).entries@).to_set() == entry_names(old(self).entries@).to_set().insert(name@),
            forall|i: int| 0 <= i < final(self).entries@.len() ==> (#[trigger] final(self).entries@[i]).0@ == name@
                ==> final(self).entries@[i].1@ == group@,
            forall|i: int| 0 <= i < final(self).entries@.len() ==> (#[trigger] final(self).entries@[i]).0@ != name@
                ==> exists|j: int| 0 <= j < old(self).entries@.len() && old(self).entries@[j] == final(self).entries@[i],
            entries_map(final(self).entries@) == entries_map(old(self).entries@).insert(name@, group@),
    {
        self.insert_entry(name, group);
        proof {
            let oe = old(self).entries@;
            let ne = self.entries@;
            lemma_strictly_sorted_distinct(oe);
            lemma_strictly_sorted_distinct(ne);
            lemma_entries_map(oe);
            lemma_entries_map(ne);
            let m = entries_map(oe).insert(name@, group@);
            assert(entries_map(ne).dom() =~= m.dom());
            assert forall|k: Seq<char>| #[trigger] entries_map(ne).dom().contains(k) implies entries_map(ne)[k] == m[k] by {
                assert(entry_names(ne).to_set().contains(k));
                assert(entry_names(ne).contains(k));
                let i = choose|i: int| 0 <= i < entry_names(ne).len() && entry_names(ne)[i] == k;
                assert(ne[i].0@ == k);
                assert(entries_map(ne)[ne[i].0@] == ne[i].1@);
                if k != name@ {
                    let j = choose|j: int| 0 <= j < oe.len() && oe[j] == ne[i];
                    assert(entries_map(oe)[oe[j].0@] == oe[j].1@);
                }
            }
            assert(entries_map(ne) =~= m);
        }
    }

    /// Add the group `name`, replacing a group of the same name.
    fn insert_entry(&mut self, name: String, group: PackagesInstall)
        requires
            old(self).wf(),
            group.wf(),
        ensures
            final(self).wf(),
            entry_names(final(self).entries@).to_set() == entry_names(old(self).entries@).to_set().insert(name@),
            forall|i: int| 0 <= i < final(self).entries@.len() ==> (#[trigger] final(self).entries@[i]).0@ == name@
                ==> final(self).entries@[i].1@ == group@,
            forall|i: int| 0 <= i < final(self).entries@.len() ==> (#[trigger] final(self).entries@[i]).0@ != name@
                ==> exists|j: int| 0 <= j < old(self).entries@.len() && old(self).entries@[j] == final(self).entries@[i],
    {
        let ghost ov = entry_names(self.entries@);
        let ghost oe = self.entries@;
        let nc = str_to_chars(name.as_str());
        let mut p: usize = 0;
        while p < self.entries.len() && crate::order::chars_lt(str_to_chars(self.entries[p].0.as_str()).as_slice(), nc.as_slice())
            invariant
                p <= self.entries@.len(),
                ov == entry_names(self.entries@),
                oe == self.entries@,
                nc@ == name@,
                forall|k: int| 0 <= k < p ==> crate::order::seq_lt(ov[k], name@),
            decreases self.entries.len() - p,
        {
            proof {
                assert(ov[p as int] == self.entries@[p as int].0@);
            }
            p = p + 1;
        }
        if p < self.entries.len() && crate::text::str_eq(self.entries[p].0.as_str(), name.as_str()) {
            let ghost ne = oe.update(p as int, (name, group));
            self.entries.set(p, (name, group));
            proof {
                assert(ov[p as int] == oe[p as int].0@);
                assert(entry_names(self.entries@) =~= ov);
                assert(ov.contains(name@));
                assert(ov.to_set().insert(name@) =~= ov.to_set());
                assert forall|i: int| 0 <= i < self.entries@.len() implies (#[trigger] self.entries@[i]).1.wf() by {
                    if i != p {
                        assert(self.entries@[i] == oe[i]);
                    }
                }
                assert forall|i: int| 0 <= i < self.entries@.len() && (#[trigger] self.entries@[i]).0@ != name@ implies exists|j: int|
                    0 <= j < oe.len() && oe[j] == self.entries@[i] by {
                    assert(oe[i] == self.entries@[i]);
                }
                assert forall|i: int| 0 <= i < self.entries@.len() && (#[trigger] self.entries@[i]).0@ == name@ implies self.entries@[i].1@ == group@ by {
                    if i != p {
                        assert(ov[i] == self.entries@[i].0@);
                        crate::order::lemma_seq_lt_irreflexive(name@);
                        if i < p {
                            assert(crate::order::seq_lt(ov[i], ov[p as int]));
                        } else {
                            assert(crate::order::seq_lt(ov[p as int], ov[i]));
                        }
                    }
                }
            }
            return;
        }
        proof {
            if p < ov.len() {
                assert(ov[p as int] == oe[p as int].0@);
                crate::order::lemma_seq_lt_total(ov[p as int], name@);
            }
        }
        self.entries.insert(p, (name, group));
        proof {
            let nv = entry_names(self.entries@);
            let x = nc@;
            assert(nv =~= ov.insert(p as int, x));
            assert forall|a: int, b: int| 0 <= a < b < nv.len() implies crate::order::seq_lt(nv[a], nv[b]) by {
                if b < p {
                    assert(nv[a] == ov[a] && nv[b] == ov[b]);
                } else if b == p {
                    assert(nv[a] == ov[a] && nv[b] == x);
                } else if a == p {
                    assert(nv[b] == ov[b - 1]);
                    if b - 1 > p {
                        crate::order::lemma_seq_lt_transitive(x, ov[p as int], ov[b - 1]);
                    }
                } else if a < p {
                    assert(nv[a] == ov[a] && nv[b] == ov[b - 1]);
                } else {
                    assert(nv[a] == ov[a - 1] && nv[b] == ov[b - 1]);
                }
            }
            Seq::lemma_to_set_insert_commutes(ov, x);
            assert forall|e: Seq<char>| nv.to_set().contains(e) <==> ov.to_set().insert(x).contains(e) by {
                if nv.contains(e) {
                    let k = choose|k: int| 0 <= k < nv.len() && nv[k] == e;
                    if k < p {
                        assert(ov[k] == e);
                    } else if k > p {
                        assert(ov[k - 1] == e);
                    }
                }
                if ov.contains(e) {
                    let k = choose|k: int| 0 <= k < ov.len() && ov[k] == e;
                    if k < p {
                        assert(nv[k] == e);
                    } else {
                        assert(nv[k + 1] == e);
                    }
                }
                if e == x {
                    assert(nv[p as int] == e);
                }
            }
            assert(nv.to_set() =~= ov.to_set().insert(x));
            assert forall|i: int| 0 <= i < self.entries@.len() implies (#[trigger] self.entries@[i]).1.wf() by {
                if i < p {
                    assert(self.entries@[i] == oe[i]);
                } else if i > p {
                    assert(self.entries@[i] == oe[i - 1]);
                }
            }
            assert forall|i: int| 0 <= i < self.entries@.len() && (#[trigger] self.entries@[i]).0@ == name@ implies self.entries@[i].1@ == group@ by {
                if i < p {
                    assert(self.entries@[i] == oe[i]);
                    assert(nv[i] == ov[i]);
                    crate::order::lemma_seq_lt_irreflexive(name@);
                } else if i > p {
                    assert(nv[i] == ov[i - 1]);
                    assert(crate::order::seq_lt(nv[p as int], nv[i]));
                    crate::order::lemma_seq_lt_irreflexive(name@);
                }
            }
            assert forall|i: int| 0 <= i < self.entries@.len() && (#[trigger] self.entries@[i]).0@ != name@ implies exists|j: int|
                0 <= j < oe.len() && oe[j] == self.entries@[i] by {
                if i < p {
                    assert(oe[i] == self.entries@[i]);
                } else if i > p {
                    assert(oe[i - 1] == self.entries@[i]);
                }
            }
        }
    }

    /// The packages of all groups together.
    pub fn to_packages_install(&self) -> (r: PackagesInstall)
        ensures
            r.wf(),
            r@ == union_all(self.entries@),
    {
        let mut packages = PackagesInstall::new();
        let mut i: usize = 0;
        proof {
            assert(packages@ == empty_view()) by {
                assert(packages@.arch =~= Set::<Seq<char>>::empty());
                assert(packages@.cargo =~= Set::<Seq<char>>::empty());
                assert(packages@.dnf =~= Set::<Seq<char>>::empty());
                assert(packages@.flatpak =~= Set::<Seq<char>>::empty());
                assert(packages@.pip =~= Set::<Seq<char>>::empty());
                assert(packages@.pipx =~= Set::<Seq<char>>::empty());
                assert(packages@.rustup =~= Set::<RustupIdView>::empty());
                assert(packages@.xbps =~= Set::<Seq<char>>::empty());
            }
            assert(self.entries@.take(0) =~= Seq::<(String, PackagesInstall)>::empty());
        }
        while i < self.entries.len()
            invariant
                i <= self.entries@.len(),
                packages.wf(),
                packages@ == union_all(self.entries@.take(i as int)),
            decreases self.entries.len() - i,
        {
            packages.append(&self.entries[i].1);
            proof {
                assert(self.entries@.take(i + 1).drop_last() =~= self.entries@.take(i as int));
                assert(self.entries@.take(i + 1).last() == self.entries@[i as int]);
            }
            i = i + 1;
        }
        proof {
            assert(self.entries@.take(self.entries@.len() as int) =~= self.entries@);
        }
        packages
    }

    /// The groups of the files `files` (path and content each) in the
    /// group directory `group_dir`: each named by its path relative to the
    /// directory, components joined with `/`. Fails with the first file
    /// that cannot be read as a group, and its path.
    pub fn load(group_dir: &str, files: &Vec<(String, String)>) -> (r: Result<Groups, (String, ParseGroupError)>)
        requires
            forall|i: int| 0 <= i < files@.len() ==> valid_group_path((#[trigger] files@[i]).0@, group_dir@),
        ensures
            match r {
                Ok(g) => g.wf() && entry_names(g.entries@).to_set() == files@.map_values(
                    |f: (String, String)| group_name(f.0@, group_dir@),
                ).to_set() && forall|i: int| 0 <= i < files@.len() ==> (#[trigger] parse_group_spec(files@[i].1@)) is Ok
                    && entries_map(g.entries@) == groups_of_files_map(group_dir@, files@),
                Err(e) => exists|i: int|
                    0 <= i < files@.len() && (forall|k: int| 0 <= k < i ==> (#[trigger] parse_group_spec(files@[k].1@)) is Ok)
                        && e.0@ == files@[i].0@ && (#[trigger] parse_group_spec(files@[i].1@))
                        == Err::<PackagesView, (int, Seq<char>, int)>(parse_error_view(e.1)),
            },
    {
        let ghost names = files@.map_values(|f: (String, String)| group_name(f.0@, group_dir@));
        let mut groups = Groups::new();
        let mut i: usize = 0;
        proof {
            assert(names.take(0).to_set() =~= Set::<Seq<char>>::empty());
            assert(entry_names(groups.entries@).to_set() =~= Set::<Seq<char>>::empty());
            assert(entries_map(groups.entries@) =~= groups_of_files_map(group_dir@, files@.take(0)));
        }
        while i < files.len()
            invariant
                i <= files@.len(),
                names == files@.map_values(|f: (String, String)| group_name(f.0@, group_dir@)),
                forall|k: int| 0 <= k < files@.len() ==> valid_group_path((#[trigger] files@[k]).0@, group_dir@),
                groups.wf(),
                entry_names(groups.entries@).to_set() == names.take(i as int).to_set(),
                forall|k: int| 0 <= k < i ==> (#[trigger] parse_group_spec(files@[k].1@)) is Ok,
                entries_map(groups.entries@) == groups_of_files_map(group_dir@, files@.take(i as int)),
            decreases files.len() - i,
        {
            let (path, content) = &files[i];
            match parse_group(content.as_str()) {
                Ok(group) => {
                    proof {
                        assert(valid_group_path(files@[i as int].0@, group_dir@));
                    }
                    let name = extract_group_name(path.as_str(), group_dir);
                    groups.insert(name, group);
                    proof {
                        assert(names[i as int] == group_name(path@, group_dir@));
                        assert(files@.take(i + 1).drop_last() =~= files@.take(i as int));
                        assert(files@.take(i + 1).last() == files@[i as int]);
                        assert(names.take(i + 1) =~= names.take(i as int) + seq![names[i as int]]);
                        Seq::lemma_to_set_insert_commutes(names.take(i as int), names[i as int]);
                    }
                },
                Err(e) => {
                    let r = (path.clone(), e);
                    proof {
                        assert(r.0@ == files@[i as int].0@);
                        assert(forall|k: int| 0 <= k < i ==> (#[trigger] parse_group_spec(files@[k].1@)) is Ok);
                    }
                    return Err(r);
                },
            }
            i = i + 1;
        }
        proof {
            assert(names.take(names.len() as int) =~= names);
            assert(files@.take(files@.len() as int) =~= files@);
        }
        Ok(groups)
    }
}

} // verus!
