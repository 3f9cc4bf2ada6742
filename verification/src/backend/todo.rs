//! What is to be done per backend: the packages to install or remove, how
//! they are shown, and how packages assigned to groups are gathered per
//! group.

use vstd::prelude::*;
use crate::order::{sort_packages, sorted_packages};
use crate::package::{Package, PackageView, package_display, packages_view};
use crate::text::{chars_to_string, push_str_chars};

verus! {

/// The packages to handle for each backend, with the backend's section.
#[derive(Debug)]
pub struct ToDoPerBackend {
    pub items: Vec<(String, Vec<Package>)>,
}

/// The lines that show packages: one per package.
pub open spec fn listed_packages(ps: Seq<PackageView>) -> Seq<char>
    decreases ps.len(),
{
    if ps.len() == 0 {
        seq![]
    } else {
        listed_packages(ps.drop_last()) + package_display(ps.last()) + seq!['\n']
    }
}

/// What is shown for one backend: where it has packages, the optional
/// sentence with `keyword`, the section in brackets, and the packages.
pub open spec fn backend_todo_text(keyword: Option<Seq<char>>, section: Seq<char>, ps: Seq<PackageView>) -> Seq<char> {
    if ps.len() == 0 {
        seq![]
    } else {
        (match keyword {
            Some(kw) => "Would "@ + kw + " the following packages:\n"@,
            None => seq![],
        }) + seq!['['] + section + "]\n"@ + listed_packages(ps)
    }
}

/// What is shown for all backends, in order.
pub open spec fn todo_text(keyword: Option<Seq<char>>, items: Seq<(String, Vec<Package>)>) -> Seq<char>
    decreases items.len(),
{
    if items.len() == 0 {
        seq![]
    } else {
        todo_text(keyword, items.drop_last()) + backend_todo_text(
            keyword,
            items.last().0@,
            packages_view(items.last().1@),
        )
    }
}

impl ToDoPerBackend {
    /// Nothing to do yet.
    pub fn new() -> (r: Self)
        ensures
            r.items@.len() == 0,
    {
        Self { items: Vec::new() }
    }

    /// Add the packages of one backend.
    pub fn push(&mut self, item: (String, Vec<Package>))
        ensures
            final(self).items@ == old(self).items@.push(item),
    {
        self.items.push(item);
    }

    /// Whether no backend has packages to handle.
    pub fn nothing_to_do_for_all_backends(&self) -> (r: bool)
        ensures
            r == forall|i: int| 0 <= i < self.items@.len() ==> (#[trigger] self.items@[i]).1@.len() == 0,
    {
        let mut i: usize = 0;
        while i < self.items.len()
            invariant
                i <= self.items@.len(),
                forall|j: int| 0 <= j < i ==> (#[trigger] self.items@[j]).1@.len() == 0,
            decreases self.items.len() - i,
        {
            if self.items[i].1.len() > 0 {
                return false;
            }
            i = i + 1;
        }
        true
    }

    /// Whether no backend has packages to handle.
    pub fn is_empty(&self) -> (r: bool)
        ensures
            r == forall|i: int| 0 <= i < self.items@.len() ==> (#[trigger] self.items@[i]).1@.len() == 0,
    {
        self.nothing_to_do_for_all_backends()
    }

    /// What is shown for all backends with packages: for each, the
    /// sentence with `keyword` where one is given, the section in brackets,
    /// and the packages, one per line.
    pub fn show(&self, keyword: Option<&str>) -> (r: String)
        ensures
            r@ == todo_text(
                match keyword {
                    Some(k) => Some(k@),
                    None => None,
                },
                self.items@,
            ),
    {
        let ghost kw = match keyword {
            Some(k) => Some(k@),
            None => None::<Seq<char>>,
        };
        let mut out: Vec<char> = Vec::new();
        let mut i: usize = 0;
        proof {
            assert(self.items@.take(0) =~= Seq::<(String, Vec<Package>)>::empty());
        }
        while i < self.items.len()
            invariant
                i <= self.items@.len(),
                kw == (match keyword {
                    Some(k) => Some(k@),
                    None => None::<Seq<char>>,
                }),
                out@ == todo_text(kw, self.items@.take(i as int)),
            decreases self.items.len() - i,
        {
            let ghost before = out@;
            let (section, packages) = &self.items[i];
            if packages.len() > 0 {
                match keyword {
                    Some(k) => {
                        push_str_chars(&mut out, "Would ");
                        push_str_chars(&mut out, k);
                        push_str_chars(&mut out, " the following packages:\n");
                    },
                    None => {},
                }
                out.push('[');
                push_str_chars(&mut out, section.as_str());
                push_str_chars(&mut out, "]\n");
                let ghost mid = out@;
                let ghost pv = packages_view(packages@);
                let mut j: usize = 0;
                proof {
                    assert(mid =~= mid + listed_packages(pv.take(0)));
                }
                while j < packages.len()
                    invariant
                        j <= packages@.len(),
                        pv == packages_view(packages@),
                        out@ == mid + listed_packages(pv.take(j as int)),
                    decreases packages.len() - j,
                {
                    let t = packages[j].to_string();
                    push_str_chars(&mut out, t.as_str());
                    out.push('\n');
                    proof {
                        assert(pv.take(j + 1).drop_last() =~= pv.take(j as int));
                        assert(pv.take(j + 1).last() == packages@[j as int]@);
                        assert(out@ =~= mid + listed_packages(pv.take(j + 1)));
                    }
                    j = j + 1;
                }
                proof {
                    assert(pv.take(pv.len() as int) =~= pv);
                    assert(out@ =~= before + backend_todo_text(kw, section@, pv));
                }
            } else {
                proof {
                    assert(out@ =~= before + backend_todo_text(kw, section@, packages_view(packages@)));
                }
            }
            proof {
                assert(self.items@.take(i + 1).drop_last() =~= self.items@.take(i as int));
                assert(self.items@.take(i + 1).last() == self.items@[i as int]);
            }
            i = i + 1;
        }
        proof {
            assert(self.items@.take(self.items@.len() as int) =~= self.items@);
        }
        chars_to_string(out.as_slice())
    }
}

/// The packages assigned to the group `k`, in order.
pub open spec fn assigned_to(xs: Seq<(PackageView, int)>, k: int) -> Seq<PackageView> {
    xs.filter(|x: (PackageView, int)| x.1 == k).map_values(|x: (PackageView, int)| x.0)
}

/// The groups that packages are assigned to, in the order they first
/// appear.
pub open spec fn first_keys(xs: Seq<(PackageView, int)>) -> Seq<int>
    decreases xs.len(),
{
    if xs.len() == 0 {
        seq![]
    } else {
        let prev = first_keys(xs.drop_last());
        if prev.contains(xs.last().1) {
            prev
        } else {
            prev.push(xs.last().1)
        }
    }
}

/// Packages with the groups they are assigned to, seen as views.
pub open spec fn pairs_view(v: Seq<(Package, usize)>) -> Seq<(PackageView, int)> {
    v.map_values(|x: (Package, usize)| (x.0@, x.1 as int))
}

/// The packages assigned to each group: one entry per group, in the order
/// the groups first appear, holding that group's packages sorted.
pub fn to_hashmap(to_assign: Vec<(Package, usize)>) -> (r: Vec<(usize, Vec<Package>)>)
    ensures
        r@.len() == first_keys(pairs_view(to_assign@)).len(),
        forall|j: int| #![trigger r@[j]] 0 <= j < r@.len() ==> {
            &&& r@[j].0 as int == first_keys(pairs_view(to_assign@))[j]
            &&& sorted_packages(packages_view(r@[j].1@))
            &&& packages_view(r@[j].1@).to_multiset() == assigned_to(pairs_view(to_assign@), r@[j].0 as int).to_multiset()
        },
{
    let ghost xv = pairs_view(to_assign@);
    let mut groups: Vec<(usize, Vec<Package>)> = Vec::new();
    let mut i: usize = 0;
    proof {
        assert(xv.take(0) =~= Seq::<(PackageView, int)>::empty());
    }
    while i < to_assign.len()
        invariant
            i <= to_assign@.len(),
            xv == pairs_view(to_assign@),
            groups@.len() == first_keys(xv.take(i as int)).len(),
            forall|a: int, b: int| 0 <= a < b < groups@.len() ==> groups@[a].0 != groups@[b].0,
            forall|j: int| #![trigger groups@[j]] 0 <= j < groups@.len() ==> {
                &&& groups@[j].0 as int == first_keys(xv.take(i as int))[j]
                &&& packages_view(groups@[j].1@) == assigned_to(xv.take(i as int), groups@[j].0 as int)
            },
        decreases to_assign.len() - i,
    {
        let ghost prefix = xv.take(i as int);
        let ghost keys = first_keys(prefix);
        let ghost x = xv[i as int];
        let (p, k) = &to_assign[i];
        proof {
            assert(x == (p@, *k as int));
            assert(xv.take(i + 1).drop_last() =~= prefix);
            assert(xv.take(i + 1) =~= prefix.push(x));
            assert forall|m: int| #![trigger assigned_to(xv.take(i + 1), m)] true implies assigned_to(xv.take(i + 1), m)
                == if m == x.1 {
                assigned_to(prefix, m).push(x.0)
            } else {
                assigned_to(prefix, m)
            } by {
                let pred = |y: (PackageView, int)| y.1 == m;
                prefix.lemma_filter_push(x, pred);
                if m == x.1 {
                    assert(assigned_to(xv.take(i + 1), m) =~= assigned_to(prefix, m).push(x.0));
                }
            }
        }
        let mut j: usize = 0;
        while j < groups.len() && groups[j].0 != *k
            invariant
                j <= groups@.len(),
                forall|m: int| 0 <= m < j ==> groups@[m].0 != *k,
            decreases groups.len() - j,
        {
            j = j + 1;
        }
        if j < groups.len() {
            let ghost old_groups = groups@;
            let (key, mut inner) = groups.remove(j);
            inner.push(p.clone());
            groups.insert(j, (key, inner));
            proof {
                assert(keys[j as int] == *k as int);
                assert(keys.contains(x.1));
                assert forall|a: int, b: int| 0 <= a < b < groups@.len() implies groups@[a].0 != groups@[b].0 by {
                    assert(groups@[a].0 == old_groups[a].0);
                    assert(groups@[b].0 == old_groups[b].0);
                }
                assert(first_keys(xv.take(i + 1)) == keys);
                assert forall|m: int| #![trigger groups@[m]] 0 <= m < groups@.len() implies {
                    &&& groups@[m].0 as int == first_keys(xv.take(i + 1))[m]
                    &&& packages_view(groups@[m].1@) == assigned_to(xv.take(i + 1), groups@[m].0 as int)
                } by {
                    let _ = assigned_to(xv.take(i + 1), old_groups[m].0 as int);
                    if m == j {
                        assert(groups@[m].0 == old_groups[m].0);
                        assert(old_groups[m].0 == *k);
                        assert(packages_view(old_groups[m].1@) == assigned_to(prefix, old_groups[m].0 as int));
                        assert(packages_view(groups@[m].1@) =~= packages_view(old_groups[m].1@).push(p@));
                    } else {
                        assert(groups@[m] == old_groups[m]);
                        assert(old_groups[j as int].0 == *k);
                        assert(old_groups[m].0 != *k);
                    }
                }
            }
        } else {
            let ghost old_groups = groups@;
            let mut inner: Vec<Package> = Vec::new();
            inner.push(p.clone());
            groups.push((*k, inner));
            proof {
                assert forall|m: int| 0 <= m < keys.len() implies keys[m] != x.1 by {
                    assert(old_groups[m].0 as int == keys[m]);
                }
                assert(!keys.contains(x.1));
                assert(first_keys(xv.take(i + 1)) == keys.push(x.1));
                assert forall|a: int, b: int| 0 <= a < b < groups@.len() implies groups@[a].0 != groups@[b].0 by {
                    assert(groups@[a] == old_groups[a]);
                    if b < old_groups.len() {
                        assert(groups@[b] == old_groups[b]);
                    } else {
                        assert(old_groups[a].0 as int == keys[a]);
                    }
                }
                assert forall|m: int| #![trigger groups@[m]] 0 <= m < groups@.len() implies {
                    &&& groups@[m].0 as int == first_keys(xv.take(i + 1))[m]
                    &&& packages_view(groups@[m].1@) == assigned_to(xv.take(i + 1), groups@[m].0 as int)
                } by {
                    let _ = assigned_to(xv.take(i + 1), groups@[m].0 as int);
                    if m < old_groups.len() {
                        assert(groups@[m] == old_groups[m]);
                    } else {
                        assert(assigned_to(prefix, x.1) =~= Seq::<PackageView>::empty()) by {
                            let pred = |y: (PackageView, int)| y.1 == x.1;
                            assert forall|t: int| 0 <= t < prefix.len() implies !pred(prefix[t]) by {
                                lemma_first_keys_contains(prefix, t);
                            }
                            lemma_filter_none(prefix, pred);
                        }
                        assert(packages_view(groups@[m].1@) =~= seq![p@]);
                    }
                }
            }
        }
        i = i + 1;
    }
    proof {
        assert(xv.take(xv.len() as int) =~= xv);
    }
    let mut result: Vec<(usize, Vec<Package>)> = Vec::new();
    let mut rest = groups;
    while rest.len() > 0
        invariant
            result@.len() + rest@.len() == first_keys(xv).len(),
            forall|j: int| #![trigger rest@[j]] 0 <= j < rest@.len() ==> {
                &&& rest@[j].0 as int == first_keys(xv)[result@.len() + j]
                &&& packages_view(rest@[j].1@) == assigned_to(xv, rest@[j].0 as int)
            },
            forall|j: int| #![trigger result@[j]] 0 <= j < result@.len() ==> {
                &&& result@[j].0 as int == first_keys(xv)[j]
                &&& sorted_packages(packages_view(result@[j].1@))
                &&& packages_view(result@[j].1@).to_multiset() == assigned_to(xv, result@[j].0 as int).to_multiset()
            },
        decreases rest.len(),
    {
        let ghost old_rest = rest@;
        let (key, inner) = rest.remove(0);
        proof {
            assert(key as int == first_keys(xv)[result@.len() as int]);
            assert(packages_view(inner@) == assigned_to(xv, key as int));
            assert forall|j: int| #![trigger rest@[j]] 0 <= j < rest@.len() implies {
                &&& rest@[j].0 as int == first_keys(xv)[result@.len() + 1 + j]
                &&& packages_view(rest@[j].1@) == assigned_to(xv, rest@[j].0 as int)
            } by {
                assert(rest@[j] == old_rest[j + 1]);
            }
        }
        let sorted = sort_packages(inner);
        result.push((key, sorted));
    }
    result
}

pub proof fn lemma_first_keys_contains(xs: Seq<(PackageView, int)>, t: int)
    requires
        0 <= t < xs.len(),
    ensures
        first_keys(xs).contains(xs[t].1),
    decreases xs.len(),
{
    let prev = first_keys(xs.drop_last());
    if t < xs.len() - 1 {
        lemma_first_keys_contains(xs.drop_last(), t);
        assert(xs.drop_last()[t] == xs[t]);
        let w = choose|w: int| 0 <= w < prev.len() && prev[w] == xs[t].1;
        if !prev.contains(xs.last().1) {
            assert(prev.push(xs.last().1)[w] == xs[t].1);
        }
    } else {
        if !prev.contains(xs.last().1) {
            assert(prev.push(xs.last().1)[prev.len() as int] == xs.last().1);
        }
    }
}

pub proof fn lemma_filter_none<A>(s: Seq<A>, pred: spec_fn(A) -> bool)
    requires
        forall|t: int| 0 <= t < s.len() ==> !pred(s[t]),
    ensures
        s.filter(pred) =~= Seq::<A>::empty(),
    decreases s.len(),
{
    reveal(Seq::filter);
    if s.len() > 0 {
        assert forall|t: int| 0 <= t < s.drop_last().len() implies !pred(s.drop_last()[t]) by {
            assert(s.drop_last()[t] == s[t]);
        }
        lemma_filter_none(s.drop_last(), pred);
        assert(!pred(s[s.len() - 1]));
    }
}

/// The header of a section in a group file: its name in brackets.
pub fn section_header(section: &str) -> (r: String)
    ensures
        r@ == seq!['['] + section@ + seq![']'],
{
    let mut out: Vec<char> = Vec::new();
    out.push('[');
    push_str_chars(&mut out, section);
    out.push(']');
    chars_to_string(out.as_slice())
}

} // verus!
