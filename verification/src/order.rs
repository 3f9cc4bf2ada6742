//! The order packages are sorted in: by name, then by repository (none
//! first), names compared character by character by code point, which is
//! the order of `String` and of the derived order on packages.

use vstd::prelude::*;
use crate::package::{Package, PackageView, packages_view};
use crate::text::str_to_chars;

verus! {

/// `a` comes before `b` in lexicographic order by code point.
pub open spec fn seq_lt(a: Seq<char>, b: Seq<char>) -> bool
    decreases a.len(),
{
    if a.len() == 0 {
        b.len() > 0
    } else if b.len() == 0 {
        false
    } else if a[0] != b[0] {
        (a[0] as int) < (b[0] as int)
    } else {
        seq_lt(a.drop_first(), b.drop_first())
    }
}

/// Order of optional strings: none first.
pub open spec fn opt_lt(a: Option<Seq<char>>, b: Option<Seq<char>>) -> bool {
    match (a, b) {
        (None, Some(_)) => true,
        (Some(x), Some(y)) => seq_lt(x, y),
        _ => false,
    }
}

/// `a` comes before `b`: by name, then by repository.
pub open spec fn package_lt(a: PackageView, b: PackageView) -> bool {
    seq_lt(a.0, b.0) || (a.0 == b.0 && opt_lt(a.1, b.1))
}

/// `a` comes no later than `b`.
pub open spec fn package_le(a: PackageView, b: PackageView) -> bool {
    !package_lt(b, a)
}

/// Each package comes no later than the ones after it.
pub open spec fn sorted_packages(v: Seq<PackageView>) -> bool {
    forall|i: int, j: int| 0 <= i < j < v.len() ==> package_le(v[i], v[j])
}

pub proof fn lemma_seq_lt_irreflexive(a: Seq<char>)
    ensures
        !seq_lt(a, a),
    decreases a.len(),
{
    if a.len() > 0 {
        lemma_seq_lt_irreflexive(a.drop_first());
    }
}

pub proof fn lemma_seq_lt_transitive(a: Seq<char>, b: Seq<char>, c: Seq<char>)
    requires
        seq_lt(a, b),
        seq_lt(b, c),
    ensures
        seq_lt(a, c),
    decreases a.len(),
{
    if a.len() > 0 && b.len() > 0 && c.len() > 0 && a[0] == b[0] && b[0] == c[0] {
        lemma_seq_lt_transitive(a.drop_first(), b.drop_first(), c.drop_first());
    }
}

pub proof fn lemma_seq_lt_total(a: Seq<char>, b: Seq<char>)
    ensures
        a == b || seq_lt(a, b) || seq_lt(b, a),
    decreases a.len(),
{
    if a.len() > 0 && b.len() > 0 {
        if a[0] == b[0] {
            lemma_seq_lt_total(a.drop_first(), b.drop_first());
            if a.drop_first() == b.drop_first() {
                assert(a =~= seq![a[0]] + a.drop_first());
                assert(b =~= seq![b[0]] + b.drop_first());
            }
        } else {
            assert((a[0] as int) != (b[0] as int));
        }
    } else if a.len() == 0 && b.len() == 0 {
        assert(a =~= b);
    }
}

pub proof fn lemma_seq_lt_asymmetric(a: Seq<char>, b: Seq<char>)
    requires
        seq_lt(a, b),
    ensures
        !seq_lt(b, a),
{
    if seq_lt(b, a) {
        lemma_seq_lt_transitive(a, b, a);
        lemma_seq_lt_irreflexive(a);
    }
}

pub proof fn lemma_package_lt_transitive(a: PackageView, b: PackageView, c: PackageView)
    requires
        package_lt(a, b),
        package_lt(b, c),
    ensures
        package_lt(a, c),
{
    if seq_lt(a.0, b.0) && seq_lt(b.0, c.0) {
        lemma_seq_lt_transitive(a.0, b.0, c.0);
    }
    if a.0 == b.0 && b.0 == c.0 {
        lemma_seq_lt_irreflexive(a.0);
        match (a.1, b.1, c.1) {
            (Some(x), Some(y), Some(z)) => lemma_seq_lt_transitive(x, y, z),
            _ => {},
        }
    }
}

pub proof fn lemma_package_lt_total(a: PackageView, b: PackageView)
    ensures
        a == b || package_lt(a, b) || package_lt(b, a),
{
    lemma_seq_lt_total(a.0, b.0);
    match (a.1, b.1) {
        (Some(x), Some(y)) => lemma_seq_lt_total(x, y),
        _ => {},
    }
}

pub proof fn lemma_package_lt_irreflexive(a: PackageView)
    ensures
        !package_lt(a, a),
{
    lemma_seq_lt_irreflexive(a.0);
    match a.1 {
        Some(x) => lemma_seq_lt_irreflexive(x),
        None => {},
    }
}

pub proof fn lemma_package_lt_asymmetric(a: PackageView, b: PackageView)
    requires
        package_lt(a, b),
    ensures
        !package_lt(b, a),
{
    if package_lt(b, a) {
        lemma_package_lt_transitive(a, b, a);
        lemma_package_lt_irreflexive(a);
    }
}

pub proof fn lemma_seq_lt_skip(a: Seq<char>, b: Seq<char>, i: int)
    requires
        0 <= i < a.len(),
        i < b.len(),
        a[i] == b[i],
    ensures
        seq_lt(a.skip(i), b.skip(i)) == seq_lt(a.skip(i + 1), b.skip(i + 1)),
{
    assert(a.skip(i).drop_first() =~= a.skip(i + 1));
    assert(b.skip(i).drop_first() =~= b.skip(i + 1));
}

/// Whether `a` comes before `b` in lexicographic order.
pub fn chars_lt(a: &[char], b: &[char]) -> (r: bool)
    ensures
        r == seq_lt(a@, b@),
{
    let mut i: usize = 0;
    proof {
        assert(a@.skip(0) =~= a@);
        assert(b@.skip(0) =~= b@);
    }
    while i < a.len() && i < b.len() && a[i] == b[i]
        invariant
            i <= a@.len(),
            i <= b@.len(),
            seq_lt(a@, b@) == seq_lt(a@.skip(i as int), b@.skip(i as int)),
        decreases a.len() - i,
    {
        proof {
            lemma_seq_lt_skip(a@, b@, i as int);
        }
        i = i + 1;
    }
    if i >= a.len() {
        proof {
            assert(a@.skip(i as int).len() == 0);
        }
        return i < b.len();
    }
    if i >= b.len() {
        return false;
    }
    proof {
        assert(a@.skip(i as int)[0] == a@[i as int]);
        assert(b@.skip(i as int)[0] == b@[i as int]);
    }
    a[i] < b[i]
}

/// Whether `a` comes before `b` (by name, then repository).
pub fn package_less(a: &Package, b: &Package) -> (r: bool)
    ensures
        r == package_lt(a@, b@),
{
    let an = str_to_chars(a.name.as_str());
    let bn = str_to_chars(b.name.as_str());
    if chars_lt(an.as_slice(), bn.as_slice()) {
        return true;
    }
    if !crate::text::chars_eq(an.as_slice(), bn.as_slice()) {
        return false;
    }
    match (&a.repo, &b.repo) {
        (None, Some(_)) => true,
        (Some(x), Some(y)) => {
            let xc = str_to_chars(x.as_str());
            let yc = str_to_chars(y.as_str());
            chars_lt(xc.as_slice(), yc.as_slice())
        },
        _ => false,
    }
}

/// The packages sorted (`sort_unstable` with the derived order).
pub fn sort_packages(v: Vec<Package>) -> (r: Vec<Package>)
    ensures
        sorted_packages(packages_view(r@)),
        packages_view(r@).to_multiset() == packages_view(v@).to_multiset(),
        r@.len() == v@.len(),
{
    let mut out: Vec<Package> = Vec::new();
    let mut i: usize = 0;
    proof {
        assert(packages_view(v@).take(0) =~= Seq::<PackageView>::empty());
        assert(packages_view(out@) =~= Seq::<PackageView>::empty());
    }
    while i < v.len()
        invariant
            i <= v@.len(),
            out@.len() == i,
            sorted_packages(packages_view(out@)),
            packages_view(out@).to_multiset() == packages_view(v@).take(i as int).to_multiset(),
        decreases v.len() - i,
    {
        let x = v[i].clone();
        let ghost ov = packages_view(out@);
        let mut p: usize = 0;
        while p < out.len() && !package_less(&x, &out[p])
            invariant
                p <= out@.len(),
                ov == packages_view(out@),
                forall|k: int| 0 <= k < p ==> !package_lt(x@, ov[k]),
            decreases out.len() - p,
        {
            proof {
                assert(ov[p as int] == out@[p as int]@);
            }
            p = p + 1;
        }
        proof {
            if p < out@.len() {
                assert(ov[p as int] == out@[p as int]@);
                assert(package_lt(x@, ov[p as int]));
            }
        }
        out.insert(p, x);
        proof {
            let nv = packages_view(out@);
            assert(nv =~= ov.insert(p as int, x@));
            assert forall|a: int, b: int| 0 <= a < b < nv.len() implies package_le(nv[a], nv[b]) by {
                if b < p {
                    assert(nv[a] == ov[a] && nv[b] == ov[b]);
                } else if b == p {
                    assert(nv[b] == x@ && nv[a] == ov[a]);
                } else if a == p {
                    assert(nv[a] == x@ && nv[b] == ov[b - 1]);
                    // x < ov[p] <= ov[b - 1]
                    if b - 1 > p {
                        assert(package_le(ov[p as int], ov[b - 1]));
                        lemma_package_lt_total(ov[p as int], ov[b - 1]);
                        if ov[p as int] != ov[b - 1] {
                            lemma_package_lt_transitive(x@, ov[p as int], ov[b - 1]);
                        }
                    }
                    lemma_package_lt_asymmetric(x@, ov[b - 1]);
                } else if a < p {
                    assert(nv[a] == ov[a] && nv[b] == ov[b - 1]);
                } else {
                    assert(nv[a] == ov[a - 1] && nv[b] == ov[b - 1]);
                }
            }
            assert(packages_view(v@).take(i + 1) =~= packages_view(v@).take(i as int).push(x@));
            vstd::seq_lib::to_multiset_insert(ov, p as int, x@);
            vstd::seq_lib::to_multiset_build(packages_view(v@).take(i as int), x@);
        }
        i = i + 1;
    }
    proof {
        assert(packages_view(v@).take(v@.len() as int) =~= packages_view(v@));
    }
    out
}

/// Each string comes no later than the ones after it.
pub open spec fn sorted_strings(v: Seq<Seq<char>>) -> bool {
    forall|i: int, j: int| 0 <= i < j < v.len() ==> !seq_lt(v[j], v[i])
}

/// The strings sorted by code point (`sort_unstable` on strings).
pub fn sort_strings(v: Vec<String>) -> (r: Vec<String>)
    ensures
        sorted_strings(r@.map_values(|s: String| s@)),
        r@.map_values(|s: String| s@).to_multiset() == v@.map_values(|s: String| s@).to_multiset(),
        r@.len() == v@.len(),
{
    let ghost vv = v@.map_values(|s: String| s@);
    let mut out: Vec<String> = Vec::new();
    let mut i: usize = 0;
    proof {
        assert(vv.take(0) =~= Seq::<Seq<char>>::empty());
        assert(out@.map_values(|s: String| s@) =~= Seq::<Seq<char>>::empty());
    }
    while i < v.len()
        invariant
            i <= v@.len(),
            vv == v@.map_values(|s: String| s@),
            out@.len() == i,
            sorted_strings(out@.map_values(|s: String| s@)),
            out@.map_values(|s: String| s@).to_multiset() == vv.take(i as int).to_multiset(),
        decreases v.len() - i,
    {
        let x = v[i].clone();
        let xc = str_to_chars(x.as_str());
        let ghost ov = out@.map_values(|s: String| s@);
        let mut p: usize = 0;
        while p < out.len() && !chars_lt(xc.as_slice(), str_to_chars(out[p].as_str()).as_slice())
            invariant
                p <= out@.len(),
                xc@ == x@,
                ov == out@.map_values(|s: String| s@),
                forall|k: int| 0 <= k < p ==> !seq_lt(x@, ov[k]),
            decreases out.len() - p,
        {
            proof {
                assert(ov[p as int] == out@[p as int]@);
            }
            p = p + 1;
        }
        proof {
            if p < out@.len() {
                assert(ov[p as int] == out@[p as int]@);
                assert(seq_lt(x@, ov[p as int]));
            }
        }
        out.insert(p, x);
        proof {
            let nv = out@.map_values(|s: String| s@);
            assert(nv =~= ov.insert(p as int, x@));
            assert forall|a: int, b: int| 0 <= a < b < nv.len() implies !seq_lt(nv[b], nv[a]) by {
                if b < p {
                    assert(nv[a] == ov[a] && nv[b] == ov[b]);
                } else if b == p {
                    assert(nv[b] == x@ && nv[a] == ov[a]);
                } else if a == p {
                    assert(nv[a] == x@ && nv[b] == ov[b - 1]);
                    if b - 1 > p {
                        assert(!seq_lt(ov[b - 1], ov[p as int]));
                        lemma_seq_lt_total(ov[p as int], ov[b - 1]);
                        if ov[p as int] != ov[b - 1] {
                            lemma_seq_lt_transitive(x@, ov[p as int], ov[b - 1]);
                        }
                    }
                    lemma_seq_lt_asymmetric(x@, ov[b - 1]);
                } else if a < p {
                    assert(nv[a] == ov[a] && nv[b] == ov[b - 1]);
                } else {
                    assert(nv[a] == ov[a - 1] && nv[b] == ov[b - 1]);
                }
            }
            assert(vv.take(i + 1) =~= vv.take(i as int).push(x@));
            assert(x@ == vv[i as int]);
            vstd::seq_lib::to_multiset_insert(ov, p as int, x@);
            vstd::seq_lib::to_multiset_build(vv.take(i as int), x@);
        }
        i = i + 1;
    }
    proof {
        assert(vv.take(vv.len() as int) =~= vv);
    }
    out
}

} // verus!
