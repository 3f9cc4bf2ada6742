//! The packages of every backend at once: for each backend the set of its
//! package identifiers, kept sorted, as group files declare them and as
//! the installed packages are found.

use vstd::prelude::*;
use crate::backend::rustup::{RustupIdView, RustupPackageId, ids_view, insert_sorted_id, strictly_sorted_ids};
use crate::order::{lemma_seq_lt_total, lemma_seq_lt_transitive, seq_lt};
use crate::text::{str_eq, str_to_chars};

verus! {

/// The words of a list of strings.
pub open spec fn ids_of(v: Seq<String>) -> Seq<Seq<char>> {
    v.map_values(|s: String| s@)
}

/// Each string comes strictly before the ones after it: a sorted set.
pub open spec fn strictly_sorted(v: Seq<Seq<char>>) -> bool {
    forall|i: int, j: int| 0 <= i < j < v.len() ==> seq_lt(v[i], v[j])
}

/// Insert `s` into the sorted set `v`.
pub fn insert_sorted(v: &mut Vec<String>, s: String)
    requires
        strictly_sorted(ids_of(old(v)@)),
    ensures
        strictly_sorted(ids_of(final(v)@)),
        ids_of(final(v)@).to_set() == ids_of(old(v)@).to_set().insert(s@),
{
    let ghost ov = ids_of(v@);
    let sc = str_to_chars(s.as_str());
    let mut p: usize = 0;
    while p < v.len() && crate::order::chars_lt(str_to_chars(v[p].as_str()).as_slice(), sc.as_slice())
        invariant
            p <= v@.len(),
            ov == ids_of(v@),
            sc@ == s@,
            forall|k: int| 0 <= k < p ==> seq_lt(ov[k], s@),
        decreases v.len() - p,
    {
        proof {
            assert(ov[p as int] == v@[p as int]@);
        }
        p = p + 1;
    }
    if p < v.len() && str_eq(v[p].as_str(), s.as_str()) {
        proof {
            assert(ov[p as int] == v@[p as int]@);
            assert(ov.to_set().insert(s@) =~= ov.to_set()) by {
                assert(ov.contains(s@));
            }
        }
        return;
    }
    proof {
        if p < v@.len() {
            assert(ov[p as int] == v@[p as int]@);
            assert(!seq_lt(ov[p as int], s@));
            assert(ov[p as int] != s@);
            lemma_seq_lt_total(ov[p as int], s@);
            assert(seq_lt(s@, ov[p as int]));
        }
    }
    v.insert(p, s);
    proof {
        let nv = ids_of(v@);
        let x = sc@;
        assert(nv =~= ov.insert(p as int, x));
        assert forall|a: int, b: int| 0 <= a < b < nv.len() implies seq_lt(nv[a], nv[b]) by {
            if b < p {
                assert(nv[a] == ov[a] && nv[b] == ov[b]);
            } else if b == p {
                assert(nv[a] == ov[a] && nv[b] == x);
            } else if a == p {
                assert(nv[b] == ov[b - 1]);
                if b - 1 > p {
                    lemma_seq_lt_transitive(x, ov[p as int], ov[b - 1]);
                }
            } else if a < p {
                assert(nv[a] == ov[a] && nv[b] == ov[b - 1]);
            } else {
                assert(nv[a] == ov[a - 1] && nv[b] == ov[b - 1]);
            }
        }
        assert forall|e: Seq<char>| nv.to_set().contains(e) <==> ov.to_set().insert(x).contains(e) by {
            if nv.contains(e) {
                let k = choose|k: int| 0 <= k < nv.len() && nv[k] == e;
                if k < p {
                    assert(ov[k] == e);
                } else if k > p {
                    assert(ov[k - 1] == e);
                }
            }
            if ov.contains(e) {
                let k = choose|k: int| 0 <= k < ov.len() && ov[k] == e;
                if k < p {
                    assert(nv[k] == e);
                } else {
                    assert(nv[k + 1] == e);
                }
            }
            if e == x {
                assert(nv[p as int] == e);
            }
        }
        assert(nv.to_set() =~= ov.to_set().insert(x));
    }
}

/// The backends that the packages of a group file belong to.
#[derive(Debug, Clone, Copy, PartialEq, Eq, Structural)]
pub enum AnyBackend {
    Arch,
    Cargo,
    Dnf,
    Flatpak,
    Pip,
    Pipx,
    Rustup,
    Xbps,
}

/// The name a backend is written as.
pub open spec fn any_backend_name(b: AnyBackend) -> Seq<char> {
    match b {
        AnyBackend::Arch => "Arch"@,
        AnyBackend::Cargo => "Cargo"@,
        AnyBackend::Dnf => "Dnf"@,
        AnyBackend::Flatpak => "Flatpak"@,
        AnyBackend::Pip => "Pip"@,
        AnyBackend::Pipx => "Pipx"@,
        AnyBackend::Rustup => "Rustup"@,
        AnyBackend::Xbps => "Xbps"@,
    }
}

/// The backend written as `s`, if any.
pub open spec fn any_backend_of(s: Seq<char>) -> Option<AnyBackend> {
    if s == "Arch"@ {
        Some(AnyBackend::Arch)
    } else if s == "Cargo"@ {
        Some(AnyBackend::Cargo)
    } else if s == "Dnf"@ {
        Some(AnyBackend::Dnf)
    } else if s == "Flatpak"@ {
        Some(AnyBackend::Flatpak)
    } else if s == "Pip"@ {
        Some(AnyBackend::Pip)
    } else if s == "Pipx"@ {
        Some(AnyBackend::Pipx)
    } else if s == "Rustup"@ {
        Some(AnyBackend::Rustup)
    } else if s == "Xbps"@ {
        Some(AnyBackend::Xbps)
    } else {
        None
    }
}

impl AnyBackend {
    /// The name the backend is written as.
    pub fn name(&self) -> (r: &'static str)
        ensures
            r@ == any_backend_name(*self),
    {
        match self {
            AnyBackend::Arch => "Arch",
            AnyBackend::Cargo => "Cargo",
            AnyBackend::Dnf => "Dnf",
            AnyBackend::Flatpak => "Flatpak",
            AnyBackend::Pip => "Pip",
            AnyBackend::Pipx => "Pipx",
            AnyBackend::Rustup => "Rustup",
            AnyBackend::Xbps => "Xbps",
        }
    }

    /// The backend whose name is `s`, if any.
    pub fn from_str(s: &str) -> (r: Option<Self>)
        ensures
            r == any_backend_of(s@),
    {
        if str_eq(s, "Arch") {
            Some(AnyBackend::Arch)
        } else if str_eq(s, "Cargo") {
            Some(AnyBackend::Cargo)
        } else if str_eq(s, "Dnf") {
            Some(AnyBackend::Dnf)
        } else if str_eq(s, "Flatpak") {
            Some(AnyBackend::Flatpak)
        } else if str_eq(s, "Pip") {
            Some(AnyBackend::Pip)
        } else if str_eq(s, "Pipx") {
            Some(AnyBackend::Pipx)
        } else if str_eq(s, "Rustup") {
            Some(AnyBackend::Rustup)
        } else if str_eq(s, "Xbps") {
            Some(AnyBackend::Xbps)
        } else {
            None
        }
    }
}

/// Reading a backend's name gives the backend back.
pub proof fn lemma_any_backend_roundtrip(b: AnyBackend)
    ensures
        any_backend_of(any_backend_name(b)) == Some(b),
{
    reveal_strlit("Arch");
    reveal_strlit("Cargo");
    reveal_strlit("Dnf");
    reveal_strlit("Flatpak");
    reveal_strlit("Pip");
    reveal_strlit("Pipx");
    reveal_strlit("Rustup");
    reveal_strlit("Xbps");
    assert("Arch"@[0] == 'A');
    assert("Cargo"@[0] == 'C');
    assert("Dnf"@[0] == 'D');
    assert("Flatpak"@[0] == 'F');
    assert("Pip"@[0] == 'P' && "Pip"@.len() == 3);
    assert("Pipx"@[0] == 'P' && "Pipx"@.len() == 4);
    assert("Rustup"@[0] == 'R');
    assert("Xbps"@[0] == 'X');
}

/// The package identifiers of every backend: a sorted set per backend.
#[derive(Debug)]
pub struct PackagesInstall {
    pub arch: Vec<String>,
    pub cargo: Vec<String>,
    pub dnf: Vec<String>,
    pub flatpak: Vec<String>,
    pub pip: Vec<String>,
    pub pipx: Vec<String>,
    pub rustup: Vec<RustupPackageId>,
    pub xbps: Vec<String>,
}

/// The package sets of every backend, seen as sets.
pub struct PackagesView {
    pub arch: Set<Seq<char>>,
    pub cargo: Set<Seq<char>>,
    pub dnf: Set<Seq<char>>,
    pub flatpak: Set<Seq<char>>,
    pub pip: Set<Seq<char>>,
    pub pipx: Set<Seq<char>>,
    pub rustup: Set<RustupIdView>,
    pub xbps: Set<Seq<char>>,
}

impl View for PackagesInstall {
    type V = PackagesView;

    open spec fn view(&self) -> PackagesView {
        PackagesView {
            arch: ids_of(self.arch@).to_set(),
            cargo: ids_of(self.cargo@).to_set(),
            dnf: ids_of(self.dnf@).to_set(),
            flatpak: ids_of(self.flatpak@).to_set(),
            pip: ids_of(self.pip@).to_set(),
            pipx: ids_of(self.pipx@).to_set(),
            rustup: ids_view(self.rustup@).to_set(),
            xbps: ids_of(self.xbps@).to_set(),
        }
    }
}

impl PackagesInstall {
    /// Every set is sorted.
    pub open spec fn wf(&self) -> bool {
        &&& strictly_sorted(ids_of(self.arch@))
        &&& strictly_sorted(ids_of(self.cargo@))
        &&& strictly_sorted(ids_of(self.dnf@))
        &&& strictly_sorted(ids_of(self.flatpak@))
        &&& strictly_sorted(ids_of(self.pip@))
        &&& strictly_sorted(ids_of(self.pipx@))
        &&& strictly_sorted_ids(ids_view(self.rustup@))
        &&& strictly_sorted(ids_of(self.xbps@))
    }

    /// No packages for any backend.
    pub fn new() -> (r: Self)
        ensures
            r.wf(),
            r.is_empty_spec(),
    {
        PackagesInstall {
            arch: Vec::new(),
            cargo: Vec::new(),
            dnf: Vec::new(),
            flatpak: Vec::new(),
            pip: Vec::new(),
            pipx: Vec::new(),
            rustup: Vec::new(),
            xbps: Vec::new(),
        }
    }

    /// No backend has a package.
    pub open spec fn is_empty_spec(&self) -> bool {
        &&& self.arch@.len() == 0
        &&& self.cargo@.len() == 0
        &&& self.dnf@.len() == 0
        &&& self.flatpak@.len() == 0
        &&& self.pip@.len() == 0
        &&& self.pipx@.len() == 0
        &&& self.rustup@.len() == 0
        &&& self.xbps@.len() == 0
    }

    /// Whether no backend has a package.
    pub fn is_empty(&self) -> (r: bool)
        ensures
            r == self.is_empty_spec(),
    {
        self.arch.len() == 0 && self.cargo.len() == 0 && self.dnf.len() == 0 && self.flatpak.len() == 0
            && self.pip.len() == 0 && self.pipx.len() == 0 && self.rustup.len() == 0 && self.xbps.len() == 0
    }
}

/// Insert each of `from` into the sorted set `into`.
pub fn union_into(into: &mut Vec<String>, from: &Vec<String>)
    requires
        strictly_sorted(ids_of(old(into)@)),
    ensures
        strictly_sorted(ids_of(final(into)@)),
        ids_of(final(into)@).to_set() == ids_of(old(into)@).to_set().union(ids_of(from@).to_set()),
{
    let ghost start = ids_of(into@).to_set();
    let ghost fv = ids_of(from@);
    let mut i: usize = 0;
    proof {
        assert(fv.take(0).to_set() =~= Set::<Seq<char>>::empty());
        assert(start.union(fv.take(0).to_set()) =~= start);
    }
    while i < from.len()
        invariant
            i <= from@.len(),
            fv == ids_of(from@),
            strictly_sorted(ids_of(into@)),
            ids_of(into@).to_set() == start.union(fv.take(i as int).to_set()),
        decreases from.len() - i,
    {
        insert_sorted(into, from[i].clone());
        proof {
            assert(fv[i as int] == from@[i as int]@);
            assert(fv.take(i + 1) =~= fv.take(i as int).push(fv[i as int]));
            assert(fv.take(i + 1) =~= fv.take(i as int) + seq![fv[i as int]]);
            Seq::lemma_to_set_insert_commutes(fv.take(i as int), fv[i as int]);
            assert(ids_of(into@).to_set() =~= start.union(fv.take(i + 1).to_set()));
        }
        i = i + 1;
    }
    proof {
        assert(fv.take(fv.len() as int) =~= fv);
    }
}

/// The package sets of every backend, joined.
pub open spec fn union_view(a: PackagesView, b: PackagesView) -> PackagesView {
    PackagesView {
        arch: a.arch.union(b.arch),
        cargo: a.cargo.union(b.cargo),
        dnf: a.dnf.union(b.dnf),
        flatpak: a.flatpak.union(b.flatpak),
        pip: a.pip.union(b.pip),
        pipx: a.pipx.union(b.pipx),
        rustup: a.rustup.union(b.rustup),
        xbps: a.xbps.union(b.xbps),
    }
}

/// The package sets with one identifier added to the set of `backend`.
pub open spec fn insert_view(a: PackagesView, backend: AnyBackend, id: Seq<char>, rid: RustupIdView) -> PackagesView {
    match backend {
        AnyBackend::Arch => PackagesView { arch: a.arch.insert(id), ..a },
        AnyBackend::Cargo => PackagesView { cargo: a.cargo.insert(id), ..a },
        AnyBackend::Dnf => PackagesView { dnf: a.dnf.insert(id), ..a },
        AnyBackend::Flatpak => PackagesView { flatpak: a.flatpak.insert(id), ..a },
        AnyBackend::Pip => PackagesView { pip: a.pip.insert(id), ..a },
        AnyBackend::Pipx => PackagesView { pipx: a.pipx.insert(id), ..a },
        AnyBackend::Rustup => PackagesView { rustup: a.rustup.insert(rid), ..a },
        AnyBackend::Xbps => PackagesView { xbps: a.xbps.insert(id), ..a },
    }
}

/// The set of package identifiers that backend `b` holds in `v`. Rustup
/// holds toolchain and component identifiers instead (`v.rustup`), so its
/// set of plain identifiers is empty.
pub open spec fn backend_ids(v: PackagesView, b: AnyBackend) -> Set<Seq<char>> {
    match b {
        AnyBackend::Arch => v.arch,
        AnyBackend::Cargo => v.cargo,
        AnyBackend::Dnf => v.dnf,
        AnyBackend::Flatpak => v.flatpak,
        AnyBackend::Pip => v.pip,
        AnyBackend::Pipx => v.pipx,
        AnyBackend::Rustup => Set::empty(),
        AnyBackend::Xbps => v.xbps,
    }
}

/// Adding a package for one backend files it under that backend and no
/// other: that backend's set gains the package, every other set stays as
/// it was.
pub proof fn lemma_insert_files_under_its_backend(a: PackagesView, b: AnyBackend, id: Seq<char>, rid: RustupIdView)
    ensures
        b != AnyBackend::Rustup ==> backend_ids(insert_view(a, b, id, rid), b) == backend_ids(a, b).insert(id),
        b != AnyBackend::Rustup ==> backend_ids(insert_view(a, b, id, rid), b).contains(id),
        b != AnyBackend::Rustup ==> insert_view(a, b, id, rid).rustup == a.rustup,
        b == AnyBackend::Rustup ==> insert_view(a, b, id, rid).rustup == a.rustup.insert(rid),
        forall|c: AnyBackend| c != b ==> #[trigger] backend_ids(insert_view(a, b, id, rid), c) == backend_ids(a, c),
{
}

/// Joining two package sets joins them backend by backend: each backend's
/// set is the union of its two sets.
pub proof fn lemma_union_per_backend(a: PackagesView, b: PackagesView)
    ensures
        forall|c: AnyBackend| #[trigger] backend_ids(union_view(a, b), c) == backend_ids(a, c).union(backend_ids(b, c)),
        union_view(a, b).rustup == a.rustup.union(b.rustup),
{
    assert forall|c: AnyBackend| #[trigger] backend_ids(union_view(a, b), c) == backend_ids(a, c).union(backend_ids(b, c)) by {
        if c == AnyBackend::Rustup {
            assert(Set::<Seq<char>>::empty().union(Set::<Seq<char>>::empty()) =~= Set::<Seq<char>>::empty());
        }
    }
}

/// Whether `package` can stand in the set of `backend`: a rustup package
/// must name a toolchain or a component.
pub open spec fn insertable(backend: AnyBackend, package: Seq<char>) -> bool {
    backend != AnyBackend::Rustup || crate::backend::rustup::id_of_text(package) is Some
}

impl PackagesInstall {
    /// Add the packages of `other` to the sets of their backends.
    pub fn append(&mut self, other: &PackagesInstall)
        requires
            old(self).wf(),
        ensures
            final(self).wf(),
            final(self)@ == union_view(old(self)@, other@),
    {
        union_into(&mut self.arch, &other.arch);
        union_into(&mut self.cargo, &other.cargo);
        union_into(&mut self.dnf, &other.dnf);
        union_into(&mut self.flatpak, &other.flatpak);
        union_into(&mut self.pip, &other.pip);
        union_into(&mut self.pipx, &other.pipx);
        crate::backend::rustup::union_ids_into(&mut self.rustup, &other.rustup);
        union_into(&mut self.xbps, &other.xbps);
    }

    /// Add `package` to the set of `backend`; fails, changing nothing,
    /// where a rustup package names no toolchain or component.
    pub fn insert_backend_package(&mut self, backend: AnyBackend, package: String) -> (r: bool)
        requires
            old(self).wf(),
        ensures
            final(self).wf(),
            r == insertable(backend, package@),
            r ==> final(self)@ == insert_view(
                old(self)@,
                backend,
                package@,
                match crate::backend::rustup::id_of_text(package@) {
                    Some(v) => v,
                    None => (0, seq![], seq![]),
                },
            ),
            !r ==> final(self)@ == old(self)@,
    {
        match backend {
            AnyBackend::Arch => insert_sorted(&mut self.arch, package),
            AnyBackend::Cargo => insert_sorted(&mut self.cargo, package),
            AnyBackend::Dnf => insert_sorted(&mut self.dnf, package),
            AnyBackend::Flatpak => insert_sorted(&mut self.flatpak, package),
            AnyBackend::Pip => insert_sorted(&mut self.pip, package),
            AnyBackend::Pipx => insert_sorted(&mut self.pipx, package),
            AnyBackend::Rustup => {
                match RustupPackageId::try_from(package.as_str()) {
                    Some(id) => insert_sorted_id(&mut self.rustup, id),
                    None => return false,
                }
            },
            AnyBackend::Xbps => insert_sorted(&mut self.xbps, package),
        }
        true
    }
}

} // verus!
