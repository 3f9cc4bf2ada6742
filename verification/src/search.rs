//! Searching the packages of all groups with a regular expression.

use vstd::prelude::*;
use crate::backend::void::regex_valid;
use crate::group::{Group, GroupView, groups_view};
use crate::package::{Package, PackageView, package_display, packages_view};
use crate::section::{Section, SectionView};

verus! {

/// Whether the regular expression `pattern` matches somewhere in `text`
/// (`Regex::is_match`).
pub uninterp spec fn regex_match(pattern: Seq<char>, text: Seq<char>) -> bool;

/// Whether `pattern` matches somewhere in `text`, or `None` where `pattern`
/// is not a valid regular expression. Calls `regex::Regex::new` and
/// `Regex::is_match`; the contract states that the result is `None` exactly
/// when the pattern is refused, and otherwise names the answer, which
/// depends on the pattern and the text alone.
#[verifier::external_body]
fn is_match(pattern: &str, text: &str) -> (r: Option<bool>)
    ensures
        match r {
            Some(b) => regex_valid(pattern@) && b == regex_match(pattern@, text@),
            None => !regex_valid(pattern@),
        },
{
    match regex::Regex::new(pattern) {
        Ok(re) => Some(re.is_match(text)),
        Err(_) => None,
    }
}

/// A package that a search found: the group and the section that declare
/// it, and the package.
#[derive(Debug)]
pub struct SearchHit {
    pub group: String,
    pub section: String,
    pub package: Package,
}

/// A hit seen as group name, section name and package.
pub type HitView = (Seq<char>, Seq<char>, PackageView);

impl View for SearchHit {
    type V = HitView;

    open spec fn view(&self) -> HitView {
        (self.group@, self.section@, self.package@)
    }
}

/// The hits of a sequence, each seen as its view.
pub open spec fn hits_view(v: Seq<SearchHit>) -> Seq<HitView> {
    v.map_values(|h: SearchHit| h@)
}

/// Why a search gave nothing.
#[derive(Debug, PartialEq, Eq, Structural)]
pub enum SearchError {
    /// The search string is not a valid regular expression.
    InvalidRegex,
    /// No package matches.
    NoPackagesFound,
}

/// The packages of `ps` whose text `pattern` matches, in order, each with
/// its group and section.
pub open spec fn package_hits(group: Seq<char>, section: Seq<char>, ps: Seq<PackageView>, pattern: Seq<char>) -> Seq<HitView>
    decreases ps.len(),
{
    if ps.len() == 0 {
        seq![]
    } else {
        let prev = package_hits(group, section, ps.drop_last(), pattern);
        if regex_match(pattern, package_display(ps.last())) {
            prev.push((group, section, ps.last()))
        } else {
            prev
        }
    }
}

/// The matching packages of the sections `ss` of a group, section by
/// section.
pub open spec fn section_hits(group: Seq<char>, ss: Seq<SectionView>, pattern: Seq<char>) -> Seq<HitView>
    decreases ss.len(),
{
    if ss.len() == 0 {
        seq![]
    } else {
        section_hits(group, ss.drop_last(), pattern) + package_hits(group, ss.last().0, ss.last().1, pattern)
    }
}

/// The matching packages of the groups `gs`, group by group.
pub open spec fn group_hits(gs: Seq<GroupView>, pattern: Seq<char>) -> Seq<HitView>
    decreases gs.len(),
{
    if gs.len() == 0 {
        seq![]
    } else {
        group_hits(gs.drop_last(), pattern) + section_hits(gs.last().0, gs.last().1, pattern)
    }
}

/// Append the matching packages of one section to `out`.
fn push_package_hits(out: &mut Vec<SearchHit>, group: &String, section: &Section, pattern: &str)
    requires
        regex_valid(pattern@),
    ensures
        hits_view(final(out)@) == hits_view(old(out)@) + package_hits(
            group@,
            section.name@,
            packages_view(section.packages@),
            pattern@,
        ),
{
    let ghost start = hits_view(out@);
    let ghost pv = packages_view(section.packages@);
    let mut k: usize = 0;
    proof {
        assert(pv.take(0) =~= Seq::<PackageView>::empty());
        assert(start + Seq::<HitView>::empty() =~= start);
    }
    while k < section.packages.len()
        invariant
            k <= section.packages@.len(),
            pv == packages_view(section.packages@),
            regex_valid(pattern@),
            hits_view(out@) == start + package_hits(group@, section.name@, pv.take(k as int), pattern@),
        decreases section.packages.len() - k,
    {
        let p = &section.packages[k];
        let text = p.to_string();
        proof {
            assert(pv.take(k + 1).drop_last() =~= pv.take(k as int));
            assert(pv.take(k + 1).last() == p@);
        }
        match is_match(pattern, text.as_str()) {
            Some(true) => {
                let ghost before = hits_view(out@);
                out.push(SearchHit { group: group.clone(), section: section.name.clone(), package: p.clone() });
                proof {
                    assert(hits_view(out@) =~= before.push((group@, section.name@, p@)));
                }
            },
            _ => {},
        }
        k = k + 1;
    }
    proof {
        assert(pv.take(pv.len() as int) =~= pv);
    }
}

/// Append the matching packages of one group to `out`.
fn push_group_hits(out: &mut Vec<SearchHit>, group: &Group, pattern: &str)
    requires
        regex_valid(pattern@),
    ensures
        hits_view(final(out)@) == hits_view(old(out)@) + section_hits(
            group.name@,
            crate::group::sections_view(group.sections@),
            pattern@,
        ),
{
    let ghost start = hits_view(out@);
    let ghost sv = crate::group::sections_view(group.sections@);
    let mut j: usize = 0;
    proof {
        assert(sv.take(0) =~= Seq::<SectionView>::empty());
        assert(start + Seq::<HitView>::empty() =~= start);
    }
    while j < group.sections.len()
        invariant
            j <= group.sections@.len(),
            sv == crate::group::sections_view(group.sections@),
            regex_valid(pattern@),
            hits_view(out@) == start + section_hits(group.name@, sv.take(j as int), pattern@),
        decreases group.sections.len() - j,
    {
        proof {
            assert(sv.take(j + 1).drop_last() =~= sv.take(j as int));
            assert(sv.take(j + 1).last() == group.sections@[j as int]@);
        }
        let ghost before = hits_view(out@);
        push_package_hits(out, &group.name, &group.sections[j], pattern);
        proof {
            assert(before + package_hits(
                group.name@,
                group.sections@[j as int].name@,
                packages_view(group.sections@[j as int].packages@),
                pattern@,
            ) =~= start + section_hits(group.name@, sv.take(j + 1), pattern@));
        }
        j = j + 1;
    }
    proof {
        assert(sv.take(sv.len() as int) =~= sv);
    }
}

/// Every package of every group whose text the regular expression
/// `pattern` matches, group by group, section by section, in order. Fails
/// where the pattern is not a valid regular expression, or no package
/// matches.
pub fn search_packages(pattern: &str, groups: &Vec<Group>) -> (r: Result<Vec<SearchHit>, SearchError>)
    ensures
        !regex_valid(pattern@) ==> r == Err::<Vec<SearchHit>, SearchError>(SearchError::InvalidRegex),
        regex_valid(pattern@) ==> match r {
            Ok(hits) => hits_view(hits@) == group_hits(groups_view(groups@), pattern@) && hits@.len() > 0,
            Err(e) => e == SearchError::NoPackagesFound && group_hits(groups_view(groups@), pattern@).len() == 0,
        },
{
    if is_match(pattern, "").is_none() {
        return Err(SearchError::InvalidRegex);
    }
    let ghost gv = groups_view(groups@);
    let mut out: Vec<SearchHit> = Vec::new();
    let mut i: usize = 0;
    proof {
        assert(gv.take(0) =~= Seq::<GroupView>::empty());
        assert(hits_view(out@) =~= Seq::<HitView>::empty());
    }
    while i < groups.len()
        invariant
            i <= groups@.len(),
            gv == groups_view(groups@),
            regex_valid(pattern@),
            hits_view(out@) == group_hits(gv.take(i as int), pattern@),
        decreases groups.len() - i,
    {
        proof {
            assert(gv.take(i + 1).drop_last() =~= gv.take(i as int));
            assert(gv.take(i + 1).last() == groups@[i as int]@);
        }
        push_group_hits(&mut out, &groups[i], pattern);
        i = i + 1;
    }
    proof {
        assert(gv.take(gv.len() as int) =~= gv);
    }
    if out.len() == 0 {
        Err(SearchError::NoPackagesFound)
    } else {
        Ok(out)
    }
}

} // verus!
