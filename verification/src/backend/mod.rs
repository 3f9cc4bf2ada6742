//! Package manager backends: what each one is called, the switches it
//! takes, the commands that install, remove or query packages, and which
//! packages are missing or unmanaged.

pub mod arch;
pub mod debian;
pub mod fedora;
pub mod flatpak;
pub mod python;
pub mod rust;
pub mod pacman;
pub mod pip;
pub mod rustup;
pub mod todo;
pub mod void;
pub mod xbps;

use vstd::prelude::*;
use crate::group::{Group, GroupView, groups_view};
use crate::order::{sort_packages, sorted_packages};
use crate::package::{
    Package, PackageView, contains_package, distinct_packages, holds_package, insert_package,
    lemma_set_insert_distinct, package_display, packages_view, set_insert,
};
use crate::section::SectionView;

verus! {

/// A name or word given by a backend.
pub type Text = &'static str;

/// Command line switches.
pub type Switches = &'static [&'static str];

/// The words of a list of switches.
pub open spec fn words(s: Seq<&str>) -> Seq<Seq<char>> {
    s.map_values(|w: &str| w@)
}

/// The words of a command line.
pub open spec fn strings_view(v: Seq<String>) -> Seq<Seq<char>> {
    v.map_values(|w: String| w@)
}

/// The texts of packages, as they are passed to a package manager.
pub open spec fn package_args(ps: Seq<PackageView>) -> Seq<Seq<char>> {
    ps.map_values(|p: PackageView| package_display(p))
}

/// Append the words of `s` to the command line `cmd`.
pub fn push_switches(cmd: &mut Vec<String>, s: &[&str])
    ensures
        strings_view(final(cmd)@) == strings_view(old(cmd)@) + words(s@),
{
    let ghost start = strings_view(cmd@);
    let mut i: usize = 0;
    proof {
        assert(words(s@).take(0) =~= Seq::<Seq<char>>::empty());
        assert(strings_view(cmd@) =~= start + words(s@).take(0));
    }
    while i < s.len()
        invariant
            i <= s@.len(),
            strings_view(cmd@) == start + words(s@).take(i as int),
        decreases s.len() - i,
    {
        let ghost before = cmd@;
        cmd.push(s[i].to_owned());
        proof {
            assert(strings_view(cmd@) =~= strings_view(before).push(s@[i as int]@));
            assert(words(s@).take(i + 1) =~= words(s@).take(i as int).push(s@[i as int]@));
        }
        i = i + 1;
    }
    proof {
        assert(words(s@).take(s@.len() as int) =~= words(s@));
    }
}

/// Append the texts of `packages` to the command line `cmd`.
pub fn push_packages(cmd: &mut Vec<String>, packages: &[Package])
    ensures
        strings_view(final(cmd)@) == strings_view(old(cmd)@) + package_args(packages_view(packages@)),
{
    let ghost start = strings_view(cmd@);
    let ghost pv = packages_view(packages@);
    let mut i: usize = 0;
    proof {
        assert(package_args(pv).take(0) =~= Seq::<Seq<char>>::empty());
        assert(strings_view(cmd@) =~= start + package_args(pv).take(0));
    }
    while i < packages.len()
        invariant
            i <= packages@.len(),
            pv == packages_view(packages@),
            strings_view(cmd@) == start + package_args(pv).take(i as int),
        decreases packages.len() - i,
    {
        let ghost before = cmd@;
        cmd.push(packages[i].to_string());
        proof {
            assert(strings_view(cmd@) =~= strings_view(before).push(package_display(packages@[i as int]@)));
            assert(package_args(pv).take(i + 1) =~= package_args(pv).take(i as int).push(
                package_display(pv[i as int]),
            ));
        }
        i = i + 1;
    }
    proof {
        assert(package_args(pv).take(pv.len() as int) =~= package_args(pv));
    }
}

/// `acc` with the packages of the sections named `section`, in every
/// group in turn, inserted.
pub open spec fn add_groups(acc: Seq<PackageView>, gs: Seq<GroupView>, section: Seq<char>) -> Seq<PackageView>
    decreases gs.len(),
{
    if gs.len() == 0 {
        acc
    } else {
        add_sections(add_groups(acc, gs.drop_last(), section), gs.last().1, section)
    }
}

/// The packages of the section named `section` in every group, as one set
/// (in the order the groups and sections come in).
pub open spec fn managed_packages(gs: Seq<GroupView>, section: Seq<char>) -> Seq<PackageView> {
    add_groups(seq![], gs, section)
}

/// `acc` with the packages of the sections named `section` added.
pub open spec fn add_sections(acc: Seq<PackageView>, ss: Seq<SectionView>, section: Seq<char>) -> Seq<PackageView>
    decreases ss.len(),
{
    if ss.len() == 0 {
        acc
    } else {
        let prev = add_sections(acc, ss.drop_last(), section);
        if ss.last().0 == section {
            add_all(prev, ss.last().1)
        } else {
            prev
        }
    }
}

/// `acc` with each of `ps` inserted in turn.
pub open spec fn add_all(acc: Seq<PackageView>, ps: Seq<PackageView>) -> Seq<PackageView>
    decreases ps.len(),
{
    if ps.len() == 0 {
        acc
    } else {
        set_insert(add_all(acc, ps.drop_last()), ps.last())
    }
}

pub proof fn lemma_add_all_distinct(acc: Seq<PackageView>, ps: Seq<PackageView>)
    requires
        distinct_packages(acc),
    ensures
        distinct_packages(add_all(acc, ps)),
    decreases ps.len(),
{
    if ps.len() > 0 {
        lemma_add_all_distinct(acc, ps.drop_last());
        lemma_set_insert_distinct(add_all(acc, ps.drop_last()), ps.last());
    }
}

pub proof fn lemma_add_sections_distinct(acc: Seq<PackageView>, ss: Seq<SectionView>, section: Seq<char>)
    requires
        distinct_packages(acc),
    ensures
        distinct_packages(add_sections(acc, ss, section)),
    decreases ss.len(),
{
    if ss.len() > 0 {
        lemma_add_sections_distinct(acc, ss.drop_last(), section);
        if ss.last().0 == section {
            lemma_add_all_distinct(add_sections(acc, ss.drop_last(), section), ss.last().1);
        }
    }
}

pub proof fn lemma_add_groups_distinct(acc: Seq<PackageView>, gs: Seq<GroupView>, section: Seq<char>)
    requires
        distinct_packages(acc),
    ensures
        distinct_packages(add_groups(acc, gs, section)),
    decreases gs.len(),
{
    if gs.len() > 0 {
        lemma_add_groups_distinct(acc, gs.drop_last(), section);
        lemma_add_sections_distinct(add_groups(acc, gs.drop_last(), section), gs.last().1, section);
    }
}

/// Insert each of `from` into the package set `into`.
fn insert_all(into: &mut Vec<Package>, from: &Vec<Package>)
    ensures
        packages_view(final(into)@) == add_all(packages_view(old(into)@), packages_view(from@)),
{
    let ghost start = packages_view(into@);
    let ghost fv = packages_view(from@);
    let mut i: usize = 0;
    proof {
        assert(fv.take(0) =~= Seq::<PackageView>::empty());
    }
    while i < from.len()
        invariant
            i <= from@.len(),
            fv == packages_view(from@),
            packages_view(into@) == add_all(start, fv.take(i as int)),
        decreases from.len() - i,
    {
        proof {
            assert(fv.take(i + 1).drop_last() =~= fv.take(i as int));
            assert(fv.take(i + 1).last() == from@[i as int]@);
        }
        insert_package(into, from[i].clone());
        i = i + 1;
    }
    proof {
        assert(fv.take(fv.len() as int) =~= fv);
    }
}

/// Add to the package set `packages` the packages of the section named
/// `section` in every group (what each backend's `load` does with its own
/// section).
pub fn load_section(packages: &mut Vec<Package>, groups: &Vec<Group>, section: &str)
    requires
        distinct_packages(packages_view(old(packages)@)),
    ensures
        packages_view(final(packages)@) == add_groups(packages_view(old(packages)@), groups_view(groups@), section@),
        distinct_packages(packages_view(final(packages)@)),
{
    let ghost gv = groups_view(groups@);
    let ghost start = packages_view(packages@);
    let mut g: usize = 0;
    proof {
        assert(gv.take(0) =~= Seq::<GroupView>::empty());
    }
    while g < groups.len()
        invariant
            g <= groups@.len(),
            gv == groups_view(groups@),
            packages_view(packages@) == add_groups(start, gv.take(g as int), section@),
        decreases groups.len() - g,
    {
        let ghost acc0 = packages_view(packages@);
        let sections = &groups[g].sections;
        let ghost sv = groups@[g as int]@.1;
        let mut s: usize = 0;
        proof {
            assert(sv.take(0) =~= Seq::<SectionView>::empty());
        }
        while s < sections.len()
            invariant
                s <= sections@.len(),
                sv == crate::group::sections_view(sections@),
                packages_view(packages@) == add_sections(acc0, sv.take(s as int), section@),
            decreases sections.len() - s,
        {
            proof {
                assert(sv.take(s + 1).drop_last() =~= sv.take(s as int));
                assert(sv.take(s + 1).last() == sections@[s as int]@);
            }
            if crate::text::str_eq(sections[s].name.as_str(), section) {
                insert_all(packages, &sections[s].packages);
            }
            s = s + 1;
        }
        proof {
            assert(sv.take(sv.len() as int) =~= sv);
            assert(gv.take(g + 1).drop_last() =~= gv.take(g as int));
            assert(gv.take(g + 1).last() == groups@[g as int]@);
        }
        g = g + 1;
    }
    proof {
        assert(gv.take(gv.len() as int) =~= gv);
        lemma_add_groups_distinct(start, gv, section@);
    }
}

/// The packages of `a` that `b` does not hold (`HashSet::difference`).
pub open spec fn package_difference(a: Seq<PackageView>, b: Seq<PackageView>) -> Seq<PackageView> {
    a.filter(|p: PackageView| !holds_package(b, p))
}

/// The packages of `a` that `b` does not hold.
pub fn difference(a: &Vec<Package>, b: &Vec<Package>) -> (r: Vec<Package>)
    ensures
        packages_view(r@) == package_difference(packages_view(a@), packages_view(b@)),
{
    let ghost av = packages_view(a@);
    let ghost bv = packages_view(b@);
    let ghost pred = |p: PackageView| !holds_package(bv, p);
    let mut out: Vec<Package> = Vec::new();
    let mut i: usize = 0;
    proof {
        assert(av.take(0) =~= Seq::<PackageView>::empty());
        assert(av.take(0).filter(pred) =~= Seq::<PackageView>::empty());
        assert(packages_view(out@) =~= Seq::<PackageView>::empty());
    }
    while i < a.len()
        invariant
            i <= a@.len(),
            av == packages_view(a@),
            bv == packages_view(b@),
            pred == (|p: PackageView| !holds_package(bv, p)),
            packages_view(out@) == av.take(i as int).filter(pred),
        decreases a.len() - i,
    {
        proof {
            assert(av.take(i + 1) =~= av.take(i as int).push(a@[i as int]@));
            av.take(i as int).lemma_filter_push(a@[i as int]@, pred);
        }
        if !contains_package(b, &a[i]) {
            let ghost before = out@;
            out.push(a[i].clone());
            proof {
                assert(packages_view(out@) =~= packages_view(before).push(a@[i as int]@));
            }
        }
        i = i + 1;
    }
    proof {
        assert(av.take(av.len() as int) =~= av);
    }
    out
}

/// The managed packages that are not installed, sorted.
pub fn get_missing_packages_sorted(managed: &Vec<Package>, installed: &Vec<Package>) -> (r: Vec<Package>)
    ensures
        sorted_packages(packages_view(r@)),
        packages_view(r@).to_multiset() == package_difference(packages_view(managed@), packages_view(installed@)).to_multiset(),
{
    sort_packages(difference(managed, installed))
}

/// The explicitly installed packages that are not managed, sorted.
pub fn get_unmanaged_packages_sorted(installed: &Vec<Package>, managed: &Vec<Package>) -> (r: Vec<Package>)
    ensures
        sorted_packages(packages_view(r@)),
        packages_view(r@).to_multiset() == package_difference(packages_view(installed@), packages_view(managed@)).to_multiset(),
{
    sort_packages(difference(installed, managed))
}

} // verus!

verus! {

/// Append the word `w` to the command line `cmd`.
pub fn push_word(cmd: &mut Vec<String>, w: &str)
    ensures
        strings_view(final(cmd)@) == strings_view(old(cmd)@).push(w@),
{
    let ghost before = cmd@;
    cmd.push(w.to_owned());
    proof {
        assert(strings_view(cmd@) =~= strings_view(before).push(w@));
    }
}

/// Append the words of `ws` to the command line `cmd`.
pub fn push_strings(cmd: &mut Vec<String>, ws: &Vec<String>)
    ensures
        strings_view(final(cmd)@) == strings_view(old(cmd)@) + strings_view(ws@),
{
    let ghost start = strings_view(cmd@);
    let mut i: usize = 0;
    proof {
        assert(strings_view(ws@).take(0) =~= Seq::<Seq<char>>::empty());
        assert(strings_view(cmd@) =~= start + strings_view(ws@).take(0));
    }
    while i < ws.len()
        invariant
            i <= ws@.len(),
            strings_view(cmd@) == start + strings_view(ws@).take(i as int),
        decreases ws.len() - i,
    {
        let ghost before = cmd@;
        cmd.push(ws[i].clone());
        proof {
            assert(strings_view(cmd@) =~= strings_view(before).push(ws@[i as int]@));
            assert(strings_view(ws@).take(i + 1) =~= strings_view(ws@).take(i as int).push(ws@[i as int]@));
        }
        i = i + 1;
    }
    proof {
        assert(strings_view(ws@).take(ws@.len() as int) =~= strings_view(ws@));
    }
}

/// A command line that starts with the program `w`.
pub fn command(w: &str) -> (r: Vec<String>)
    ensures
        strings_view(r@) == seq![w@],
{
    let mut cmd: Vec<String> = Vec::new();
    push_word(&mut cmd, w);
    proof {
        assert(strings_view(cmd@) =~= seq![w@]);
    }
    cmd
}

/// The words `noconfirm` adds: `s` when it is set, nothing otherwise.
pub open spec fn if_set(noconfirm: bool, s: Seq<Seq<char>>) -> Seq<Seq<char>> {
    if noconfirm {
        s
    } else {
        seq![]
    }
}

} // verus!

verus! {

/// The command line `binary`, `switches`, the switches for going ahead
/// without confirmation where `noconfirm` is set, and the packages: the
/// shape of most package manager invocations.
pub fn package_command(
    binary: &str,
    switches: &[&str],
    noconfirm_switches: &[&str],
    noconfirm: bool,
    packages: &[Package],
) -> (r: Vec<String>)
    ensures
        strings_view(r@) == seq![binary@] + words(switches@) + if_set(noconfirm, words(noconfirm_switches@))
            + package_args(packages_view(packages@)),
{
    let mut cmd = command(binary);
    push_switches(&mut cmd, switches);
    let ghost mid = strings_view(cmd@);
    if noconfirm {
        push_switches(&mut cmd, noconfirm_switches);
    } else {
        proof {
            assert(mid =~= mid + Seq::<Seq<char>>::empty());
        }
    }
    push_packages(&mut cmd, packages);
    cmd
}

/// The command line `binary`, `switches`, and the text of `package`.
pub fn info_command(binary: &str, switches: &[&str], package: &Package) -> (r: Vec<String>)
    ensures
        strings_view(r@) == seq![binary@] + words(switches@) + seq![package_display(package@)],
{
    let mut cmd = command(binary);
    push_switches(&mut cmd, switches);
    let ghost before = cmd@;
    cmd.push(package.to_string());
    proof {
        assert(strings_view(cmd@) =~= strings_view(before).push(package_display(package@)));
    }
    cmd
}

} // verus!

verus! {

/// The lines of a package manager's output (`str::lines`).
pub fn output_lines(output: &str) -> (r: Vec<String>)
    ensures
        strings_view(r@) == crate::text::lines_of(output@),
{
    let chars = crate::text::str_to_chars(output);
    let line_chars = crate::text::split_lines(chars.as_slice());
    let mut lines: Vec<String> = Vec::new();
    let mut k: usize = 0;
    while k < line_chars.len()
        invariant
            k <= line_chars@.len(),
            lines@.len() == k,
            forall|j: int| 0 <= j < k ==> lines@[j]@ == line_chars@[j]@,
        decreases line_chars.len() - k,
    {
        lines.push(crate::text::chars_to_string(line_chars[k].as_slice()));
        k = k + 1;
    }
    proof {
        assert(strings_view(lines@) =~= line_chars@.map_values(|l: Vec<char>| l@));
    }
    lines
}

/// The packages that the lines of a package manager's output declare, each
/// package once.
pub fn packages_from_output(output: &str) -> (r: Vec<Package>)
    ensures
        packages_view(r@) == crate::package::packages_of(crate::text::lines_of(output@)),
        distinct_packages(packages_view(r@)),
{
    let lines = output_lines(output);
    proof {
        assert(lines@.map_values(|l: String| l@) =~= strings_view(lines@));
    }
    Package::from_lines(&lines)
}

} // verus!

verus! {

/// The backends that pacdef manages packages with.
#[derive(Debug, Clone, Copy, PartialEq, Eq, Structural)]
pub enum Backends {
    Arch,
    Debian,
    Python,
    Rust,
}

/// The section of group files that a backend reads.
pub open spec fn backend_section(b: Backends) -> Seq<char> {
    match b {
        Backends::Arch => "arch"@,
        Backends::Debian => "debian"@,
        Backends::Python => "python"@,
        Backends::Rust => "rust"@,
    }
}

/// All backends, in the order they are visited.
pub open spec fn all_backends() -> Seq<Backends> {
    seq![Backends::Arch, Backends::Debian, Backends::Python, Backends::Rust]
}

impl Backends {
    /// All backends, in the order they are visited.
    pub fn iter() -> (r: Vec<Backends>)
        ensures
            r@ == all_backends(),
    {
        let mut v: Vec<Backends> = Vec::new();
        v.push(Backends::Arch);
        v.push(Backends::Debian);
        v.push(Backends::Python);
        v.push(Backends::Rust);
        proof {
            assert(v@ =~= all_backends());
        }
        v
    }

    /// The backend visited after this one, if any.
    pub fn next(&self) -> (r: Option<Backends>)
        ensures
            match *self {
                Backends::Arch => r == Some(Backends::Debian),
                Backends::Debian => r == Some(Backends::Python),
                Backends::Python => r == Some(Backends::Rust),
                Backends::Rust => r is None,
            },
    {
        match self {
            Backends::Arch => Some(Backends::Debian),
            Backends::Debian => Some(Backends::Python),
            Backends::Python => Some(Backends::Rust),
            Backends::Rust => None,
        }
    }

    /// The section of group files that the backend reads.
    pub fn get_section(&self) -> (r: Text)
        ensures
            r@ == backend_section(*self),
    {
        match self {
            Backends::Arch => arch::SECTION,
            Backends::Debian => debian::SECTION,
            Backends::Python => python::SECTION,
            Backends::Rust => rust::SECTION,
        }
    }
}

/// The sections of all backends, sorted.
pub fn get_included_backends() -> (r: Vec<String>)
    ensures
        crate::order::sorted_strings(strings_view(r@)),
        strings_view(r@).to_multiset() == all_backends().map_values(|b: Backends| backend_section(b)).to_multiset(),
{
    let all = Backends::iter();
    let mut names: Vec<String> = Vec::new();
    let mut i: usize = 0;
    while i < all.len()
        invariant
            i <= all@.len(),
            all@ == all_backends(),
            strings_view(names@) == all@.take(i as int).map_values(|b: Backends| backend_section(b)),
        decreases all.len() - i,
    {
        let ghost before = names@;
        names.push(all[i].get_section().to_owned());
        proof {
            assert(strings_view(names@) =~= strings_view(before).push(backend_section(all@[i as int])));
            assert(all@.take(i + 1).map_values(|b: Backends| backend_section(b)) =~= all@.take(i as int).map_values(
                |b: Backends| backend_section(b),
            ).push(backend_section(all@[i as int])));
        }
        i = i + 1;
    }
    proof {
        assert(all@.take(all@.len() as int) =~= all@);
        assert(names@.map_values(|s: String| s@) =~= strings_view(names@));
    }
    let r = crate::order::sort_strings(names);
    proof {
        assert(r@.map_values(|s: String| s@) =~= strings_view(r@));
    }
    r
}

} // verus!

verus! {

/// Whether `p` is one of the packages that a section named `section`
/// declares in one of the groups.
pub open spec fn declared_in(gs: Seq<GroupView>, section: Seq<char>, p: PackageView) -> bool {
    exists|g: int, s: int, k: int|
        0 <= g < gs.len() && 0 <= s < gs[g].1.len() && gs[g].1[s].0 == section && 0 <= k < gs[g].1[s].1.len()
            && #[trigger] gs[g].1[s].1[k] == p
}

pub proof fn lemma_set_insert_holds(v: Seq<PackageView>, p: PackageView)
    ensures
        holds_package(set_insert(v, p), p),
        forall|q: PackageView| holds_package(v, q) ==> holds_package(set_insert(v, p), q),
        forall|q: PackageView| set_insert(v, p).contains(q) ==> v.contains(q) || q == p,
{
    let w = set_insert(v, p);
    if !holds_package(v, p) {
        assert(w[v.len() as int] == p);
        assert(crate::package::pkg_eq(p, p));
        assert forall|q: PackageView| holds_package(v, q) implies holds_package(w, q) by {
            let i = choose|i: int| 0 <= i < v.len() && crate::package::pkg_eq(v[i], q);
            assert(w[i] == v[i]);
        }
        assert forall|q: PackageView| w.contains(q) implies v.contains(q) || q == p by {
            let i = choose|i: int| 0 <= i < w.len() && w[i] == q;
            if i < v.len() {
                assert(v[i] == q);
            }
        }
    }
}

pub proof fn lemma_add_all_holds(acc: Seq<PackageView>, ps: Seq<PackageView>)
    ensures
        forall|k: int| 0 <= k < ps.len() ==> holds_package(add_all(acc, ps), #[trigger] ps[k]),
        forall|q: PackageView| holds_package(acc, q) ==> holds_package(add_all(acc, ps), q),
        forall|q: PackageView| add_all(acc, ps).contains(q) ==> acc.contains(q) || ps.contains(q),
    decreases ps.len(),
{
    if ps.len() > 0 {
        let prev = add_all(acc, ps.drop_last());
        lemma_add_all_holds(acc, ps.drop_last());
        lemma_set_insert_holds(prev, ps.last());
        assert forall|k: int| 0 <= k < ps.len() implies holds_package(add_all(acc, ps), #[trigger] ps[k]) by {
            if k < ps.len() - 1 {
                assert(ps.drop_last()[k] == ps[k]);
            }
        }
        assert forall|q: PackageView| add_all(acc, ps).contains(q) implies acc.contains(q) || ps.contains(q) by {
            if prev.contains(q) {
                if ps.drop_last().contains(q) {
                    let i = choose|i: int| 0 <= i < ps.drop_last().len() && ps.drop_last()[i] == q;
                    assert(ps[i] == q);
                }
            } else {
                assert(ps[ps.len() - 1] == q);
            }
        }
    }
}

pub proof fn lemma_add_sections_holds(acc: Seq<PackageView>, ss: Seq<SectionView>, section: Seq<char>)
    ensures
        forall|s: int, k: int|
            0 <= s < ss.len() && ss[s].0 == section && 0 <= k < ss[s].1.len() ==> holds_package(
                add_sections(acc, ss, section),
                #[trigger] ss[s].1[k],
            ),
        forall|q: PackageView| holds_package(acc, q) ==> holds_package(add_sections(acc, ss, section), q),
        forall|q: PackageView| add_sections(acc, ss, section).contains(q) ==> acc.contains(q) || exists|s: int, k: int|
            0 <= s < ss.len() && ss[s].0 == section && 0 <= k < ss[s].1.len() && #[trigger] ss[s].1[k] == q,
    decreases ss.len(),
{
    if ss.len() > 0 {
        let prev = add_sections(acc, ss.drop_last(), section);
        lemma_add_sections_holds(acc, ss.drop_last(), section);
        if ss.last().0 == section {
            lemma_add_all_holds(prev, ss.last().1);
        }
        assert forall|s: int, k: int|
            0 <= s < ss.len() && ss[s].0 == section && 0 <= k < ss[s].1.len() implies holds_package(
                add_sections(acc, ss, section),
                #[trigger] ss[s].1[k],
            ) by {
            if s < ss.len() - 1 {
                assert(ss.drop_last()[s] == ss[s]);
            } else {
                assert(ss.last() == ss[s]);
            }
        }
        assert forall|q: PackageView| add_sections(acc, ss, section).contains(q) implies acc.contains(q) || exists|s: int, k: int|
            0 <= s < ss.len() && ss[s].0 == section && 0 <= k < ss[s].1.len() && #[trigger] ss[s].1[k] == q by {
            if prev.contains(q) {
                if !acc.contains(q) {
                    let (s, k) = choose|s: int, k: int|
                        0 <= s < ss.drop_last().len() && ss.drop_last()[s].0 == section && 0 <= k < ss.drop_last()[s].1.len()
                            && #[trigger] ss.drop_last()[s].1[k] == q;
                    assert(ss[s] == ss.drop_last()[s]);
                    assert(ss[s].1[k] == q);
                }
            } else {
                let t = ss.last().1;
                assert(t.contains(q));
                let k = choose|k: int| 0 <= k < t.len() && t[k] == q;
                assert(ss[ss.len() - 1].1[k] == q);
            }
        }
    }
}

pub proof fn lemma_add_groups_holds(acc: Seq<PackageView>, gs: Seq<GroupView>, section: Seq<char>)
    ensures
        forall|p: PackageView| declared_in(gs, section, p) ==> holds_package(add_groups(acc, gs, section), p),
        forall|q: PackageView| holds_package(acc, q) ==> holds_package(add_groups(acc, gs, section), q),
        forall|q: PackageView| add_groups(acc, gs, section).contains(q) ==> acc.contains(q) || declared_in(gs, section, q),
    decreases gs.len(),
{
    if gs.len() > 0 {
        let prev = add_groups(acc, gs.drop_last(), section);
        lemma_add_groups_holds(acc, gs.drop_last(), section);
        lemma_add_sections_holds(prev, gs.last().1, section);
        assert forall|p: PackageView| declared_in(gs, section, p) implies holds_package(add_groups(acc, gs, section), p) by {
            let (g, s, k) = choose|g: int, s: int, k: int|
                0 <= g < gs.len() && 0 <= s < gs[g].1.len() && gs[g].1[s].0 == section && 0 <= k < gs[g].1[s].1.len()
                    && #[trigger] gs[g].1[s].1[k] == p;
            if g < gs.len() - 1 {
                assert(gs.drop_last()[g] == gs[g]);
                assert(gs.drop_last()[g].1[s].1[k] == p);
                assert(declared_in(gs.drop_last(), section, p));
            } else {
                assert(gs.last() == gs[g]);
                assert(gs.last().1[s].1[k] == p);
            }
        }
        assert forall|q: PackageView| add_groups(acc, gs, section).contains(q) implies acc.contains(q) || declared_in(
            gs,
            section,
            q,
        ) by {
            let ss = gs.last().1;
            if prev.contains(q) {
                if !acc.contains(q) {
                    let (g, s, k) = choose|g: int, s: int, k: int|
                        0 <= g < gs.drop_last().len() && 0 <= s < gs.drop_last()[g].1.len() && gs.drop_last()[g].1[s].0
                            == section && 0 <= k < gs.drop_last()[g].1[s].1.len() && #[trigger] gs.drop_last()[g].1[s].1[k] == q;
                    assert(gs[g] == gs.drop_last()[g]);
                    assert(gs[g].1[s].1[k] == q);
                }
            } else {
                let (s, k) = choose|s: int, k: int|
                    0 <= s < ss.len() && ss[s].0 == section && 0 <= k < ss[s].1.len() && #[trigger] ss[s].1[k] == q;
                assert(gs[gs.len() - 1].1[s].1[k] == q);
            }
        }
    }
}

/// The managed packages of a backend are the packages that the sections
/// of its name declare in all groups together: each declared package is
/// managed (one equal to it is), and each managed package is declared.
pub proof fn lemma_managed_packages(gs: Seq<GroupView>, section: Seq<char>)
    ensures
        forall|p: PackageView| declared_in(gs, section, p) ==> holds_package(managed_packages(gs, section), p),
        forall|q: PackageView| managed_packages(gs, section).contains(q) ==> declared_in(gs, section, q),
        distinct_packages(managed_packages(gs, section)),
{
    lemma_add_groups_holds(seq![], gs, section);
    lemma_add_groups_distinct(seq![], gs, section);
    assert forall|q: PackageView| managed_packages(gs, section).contains(q) implies declared_in(gs, section, q) by {
        let e: Seq<PackageView> = seq![];
        assert(!e.contains(q));
    }
}

/// A package is missing exactly when it is managed and no installed
/// package equals it; so where every managed package is installed, none
/// is missing. With the roles swapped, a package is unmanaged exactly when
/// it is installed explicitly and no managed package equals it.
pub proof fn lemma_package_difference(managed: Seq<PackageView>, installed: Seq<PackageView>)
    ensures
        forall|p: PackageView| package_difference(managed, installed).contains(p) <==> (managed.contains(p)
            && !holds_package(installed, p)),
        (forall|q: PackageView| managed.contains(q) ==> holds_package(installed, q)) ==> package_difference(
            managed,
            installed,
        ).len() == 0,
{
    broadcast use vstd::seq_lib::group_seq_properties;
    let pred = |p: PackageView| !holds_package(installed, p);
    assert forall|p: PackageView| package_difference(managed, installed).contains(p) <==> (managed.contains(p)
        && !holds_package(installed, p)) by {
        if package_difference(managed, installed).contains(p) {
            managed.lemma_filter_contains_rev(pred, p);
            let i = choose|i: int| 0 <= i < managed.filter(pred).len() && managed.filter(pred)[i] == p;
            managed.lemma_filter_pred(pred, i);
        }
        if managed.contains(p) && !holds_package(installed, p) {
            let i = choose|i: int| 0 <= i < managed.len() && managed[i] == p;
            managed.lemma_filter_contains(pred, i);
        }
    }
    if forall|q: PackageView| managed.contains(q) ==> holds_package(installed, q) {
        let d = package_difference(managed, installed);
        if d.len() > 0 {
            assert(d.contains(d[0]));
        }
    }
}

} // verus!
