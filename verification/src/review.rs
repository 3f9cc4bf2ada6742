//! Reviewing unmanaged packages: what each answer of the user does to the
//! review, how the answers are divided into what each backend has to do,
//! and the summary shown before anything is done.
//!
//! The review alternates questions to the user with decisions. The
//! decisions stand here, as functions from an answer to the next step; the
//! caller asks the questions and carries out the steps.

use vstd::prelude::*;
use crate::package::{Package, PackageView, package_display, packages_view};
use crate::text::{chars_to_string, push_str_chars, str_to_chars, trim, trim_chars};

verus! {

/// What the user wants to do with a package under review.
#[derive(Debug, Clone, Copy, PartialEq, Eq, Structural)]
pub enum ReviewIntention {
    AsDependency,
    AssignGroup,
    Delete,
    Info,
    Invalid,
    Skip,
    Quit,
}

/// The intention an answer key stands for.
pub open spec fn intention_spec(c: char) -> ReviewIntention {
    if c == 'a' {
        ReviewIntention::AsDependency
    } else if c == 'd' {
        ReviewIntention::Delete
    } else if c == 'g' {
        ReviewIntention::AssignGroup
    } else if c == 'i' {
        ReviewIntention::Info
    } else if c == 'q' {
        ReviewIntention::Quit
    } else if c == 's' {
        ReviewIntention::Skip
    } else {
        ReviewIntention::Invalid
    }
}

/// The intention of the key the user pressed: `a`s dependency, `d`elete,
/// assign to `g`roup, `i`nfo, `q`uit, `s`kip; any other key is invalid.
pub fn intention_of_char(c: char) -> (r: ReviewIntention)
    ensures
        r == intention_spec(c),
{
    match c {
        'a' => ReviewIntention::AsDependency,
        'd' => ReviewIntention::Delete,
        'g' => ReviewIntention::AssignGroup,
        'i' => ReviewIntention::Info,
        'q' => ReviewIntention::Quit,
        's' => ReviewIntention::Skip,
        _ => ReviewIntention::Invalid,
    }
}

/// What was decided for a package: mark it as a dependency, delete it, or
/// assign it to the group with the given index.
#[derive(Debug)]
pub enum ReviewAction {
    AsDependency(Package),
    Delete(Package),
    AssignGroup(Package, usize),
}

/// A decision seen as its kind (`0` as dependency, `1` delete, `2` assign
/// to a group), its package and its group index.
pub type ReviewActionView = (int, PackageView, int);

impl View for ReviewAction {
    type V = ReviewActionView;

    open spec fn view(&self) -> ReviewActionView {
        match self {
            ReviewAction::AsDependency(p) => (0, p@, 0),
            ReviewAction::Delete(p) => (1, p@, 0),
            ReviewAction::AssignGroup(p, g) => (2, p@, *g as int),
        }
    }
}

/// The decisions of a sequence, each seen as its view.
pub open spec fn actions_view(v: Seq<ReviewAction>) -> Seq<ReviewActionView> {
    v.map_values(|a: ReviewAction| a@)
}

/// Whether the review goes on after a package.
#[derive(Debug, Clone, Copy, PartialEq, Eq, Structural)]
pub enum ContinueWithReview {
    Yes,
    No,
}

/// What comes after an answer on a package: the next package, the same
/// question again, the package's information and then the question again,
/// or the end of the review.
#[derive(Debug, Clone, Copy, PartialEq, Eq, Structural)]
pub enum ReviewStep {
    NextPackage,
    AskAgain,
    ShowInfoAndAskAgain,
    Quit,
}

/// The step an answer leads to; `group` is the group the user chose where
/// the answer was to assign one.
pub open spec fn step_spec(intention: ReviewIntention, group: Option<usize>) -> ReviewStep {
    match intention {
        ReviewIntention::AsDependency => ReviewStep::NextPackage,
        ReviewIntention::AssignGroup => if group is Some {
            ReviewStep::NextPackage
        } else {
            ReviewStep::AskAgain
        },
        ReviewIntention::Delete => ReviewStep::NextPackage,
        ReviewIntention::Info => ReviewStep::ShowInfoAndAskAgain,
        ReviewIntention::Invalid => ReviewStep::AskAgain,
        ReviewIntention::Skip => ReviewStep::NextPackage,
        ReviewIntention::Quit => ReviewStep::Quit,
    }
}

/// The decision an answer records, if any.
pub open spec fn recorded_spec(p: PackageView, intention: ReviewIntention, group: Option<usize>) -> Option<ReviewActionView> {
    match intention {
        ReviewIntention::AsDependency => Some((0, p, 0)),
        ReviewIntention::AssignGroup => match group {
            Some(g) => Some((2, p, g as int)),
            None => None,
        },
        ReviewIntention::Delete => Some((1, p, 0)),
        _ => None,
    }
}

/// Apply the user's answer on `package`: record the decision it makes, if
/// any, and say what comes next. `group` is the group the user chose where
/// the answer was to assign one (`None` where the choice was not a valid
/// group).
pub fn review_step(package: &Package, intention: ReviewIntention, group: Option<usize>, actions: &mut Vec<ReviewAction>) -> (r: ReviewStep)
    ensures
        r == step_spec(intention, group),
        actions_view(final(actions)@) == match recorded_spec(package@, intention, group) {
            Some(a) => actions_view(old(actions)@).push(a),
            None => actions_view(old(actions)@),
        },
{
    let ghost before = actions@;
    let r = match intention {
        ReviewIntention::AsDependency => {
            actions.push(ReviewAction::AsDependency(package.clone()));
            ReviewStep::NextPackage
        },
        ReviewIntention::AssignGroup => match group {
            Some(g) => {
                actions.push(ReviewAction::AssignGroup(package.clone(), g));
                ReviewStep::NextPackage
            },
            None => ReviewStep::AskAgain,
        },
        ReviewIntention::Delete => {
            actions.push(ReviewAction::Delete(package.clone()));
            ReviewStep::NextPackage
        },
        ReviewIntention::Info => ReviewStep::ShowInfoAndAskAgain,
        ReviewIntention::Invalid => ReviewStep::AskAgain,
        ReviewIntention::Skip => ReviewStep::NextPackage,
        ReviewIntention::Quit => ReviewStep::Quit,
    };
    proof {
        match recorded_spec(package@, intention, group) {
            Some(a) => {
                assert(actions_view(actions@) =~= actions_view(before).push(a));
            },
            None => {
                assert(actions_view(actions@) =~= actions_view(before));
            },
        }
    }
    r
}

/// The value of a non-empty run of decimal digits.
pub open spec fn digits_value(s: Seq<char>) -> int
    decreases s.len(),
{
    if s.len() == 0 {
        0
    } else {
        digits_value(s.drop_last()) * 10 + (s.last() as int - '0' as int)
    }
}

/// Whether `s` is a non-empty run of decimal digits.
pub open spec fn all_digits(s: Seq<char>) -> bool {
    s.len() > 0 && forall|i: int| 0 <= i < s.len() ==> '0' <= #[trigger] s[i] <= '9'
}

/// The number `s` writes as `usize::from_str` reads it: decimal digits
/// with an optional leading `+`, not above `usize::MAX`.
pub open spec fn parse_usize(s: Seq<char>) -> Option<int> {
    let d = if s.len() > 0 && s[0] == '+' {
        s.skip(1)
    } else {
        s
    };
    if all_digits(d) && digits_value(d) <= usize::MAX {
        Some(digits_value(d))
    } else {
        None
    }
}

/// The group the user's reply chooses among `n` groups: the reply,
/// trimmed, is a number below `n`.
pub open spec fn group_choice(reply: Seq<char>, n: int) -> Option<int> {
    match parse_usize(trim(reply)) {
        Some(v) => if v < n {
            Some(v)
        } else {
            None
        },
        None => None,
    }
}

pub proof fn lemma_digits_value_monotone(s: Seq<char>, i: int)
    requires
        0 <= i <= s.len(),
        forall|j: int| 0 <= j < s.len() ==> '0' <= #[trigger] s[j] <= '9',
    ensures
        0 <= digits_value(s.take(i)) <= digits_value(s),
    decreases s.len() - i,
{
    if i < s.len() {
        lemma_digits_value_monotone(s, i + 1);
        assert(s.take(i + 1).drop_last() =~= s.take(i));
        assert(s.take(i + 1).last() == s[i]);
        assert('0' <= s[i] <= '9');
    } else {
        assert(s.take(i) =~= s);
        lemma_digits_value_nonneg(s);
    }
}

pub proof fn lemma_digits_value_nonneg(s: Seq<char>)
    requires
        forall|j: int| 0 <= j < s.len() ==> '0' <= #[trigger] s[j] <= '9',
    ensures
        digits_value(s) >= 0,
    decreases s.len(),
{
    if s.len() > 0 {
        assert forall|j: int| 0 <= j < s.drop_last().len() implies '0' <= #[trigger] s.drop_last()[j] <= '9' by {
            assert(s.drop_last()[j] == s[j]);
        }
        lemma_digits_value_nonneg(s.drop_last());
        assert('0' <= s[s.len() - 1] <= '9');
    }
}

/// The number `s` writes as `usize::from_str` reads it.
pub fn parse_decimal(s: &[char]) -> (r: Option<usize>)
    ensures
        match r {
            Some(v) => parse_usize(s@) == Some(v as int),
            None => parse_usize(s@) is None,
        },
{
    let mut start: usize = 0;
    if s.len() > 0 && s[0] == '+' {
        start = 1;
    }
    let ghost d = if s@.len() > 0 && s@[0] == '+' {
        s@.skip(1)
    } else {
        s@
    };
    proof {
        assert(d =~= s@.skip(start as int));
    }
    if start >= s.len() {
        proof {
            assert(!all_digits(d));
        }
        return None;
    }
    let mut v: usize = 0;
    let mut i: usize = start;
    while i < s.len()
        invariant
            start <= i <= s@.len(),
            start < s@.len(),
            d == s@.skip(start as int),
            parse_usize(s@) == (if all_digits(d) && digits_value(d) <= usize::MAX {
                Some(digits_value(d))
            } else {
                None
            }),
            forall|j: int| 0 <= j < i - start ==> '0' <= #[trigger] d[j] <= '9',
            v as int == digits_value(d.take(i - start)),
        decreases s.len() - i,
    {
        let c = s[i];
        if c < '0' || c > '9' {
            proof {
                assert(d[i - start] == c);
                assert(!all_digits(d));
                assert(parse_usize(s@) is None);
            }
            return None;
        }
        let digit: usize = (c as u32 - '0' as u32) as usize;
        proof {
            assert(d[i - start] == c);
            assert(d.take(i - start + 1).drop_last() =~= d.take(i - start));
            assert(d.take(i - start + 1).last() == c);
        }
        let next = match v.checked_mul(10) {
            Some(t) => t.checked_add(digit),
            None => None,
        };
        match next {
            Some(n) => {
                v = n;
            },
            None => {
                proof {
                    assert forall|j: int| 0 <= j < i - start + 1 implies '0' <= #[trigger] d.take(i - start + 1)[j] <= '9' by {
                        assert(d.take(i - start + 1)[j] == d[j]);
                    }
                    assert(digits_value(d.take(i - start + 1)) > usize::MAX);
                    if all_digits(d) {
                        lemma_digits_value_monotone(d, i - start + 1);
                    }
                    assert(parse_usize(s@) is None);
                }
                return None;
            },
        }
        i = i + 1;
    }
    proof {
        assert(d.take(d.len() as int) =~= d);
    }
    Some(v)
}

/// The group a reply chooses among `n` groups, if any.
pub fn parse_group_choice(reply: &str, n: usize) -> (r: Option<usize>)
    ensures
        match r {
            Some(v) => group_choice(reply@, n as int) == Some(v as int),
            None => group_choice(reply@, n as int) is None,
        },
{
    let chars = str_to_chars(reply);
    let t = trim_chars(chars.as_slice());
    match parse_decimal(t.as_slice()) {
        Some(v) => if v < n {
            Some(v)
        } else {
            None
        },
        None => None,
    }
}

} // verus!

verus! {

/// The packages to mark as dependencies, in order.
pub open spec fn dependencies(acts: Seq<ReviewActionView>) -> Seq<PackageView> {
    acts.filter(|a: ReviewActionView| a.0 == 0).map_values(|a: ReviewActionView| a.1)
}

/// The packages to delete, in order.
pub open spec fn deletions(acts: Seq<ReviewActionView>) -> Seq<PackageView> {
    acts.filter(|a: ReviewActionView| a.0 == 1).map_values(|a: ReviewActionView| a.1)
}

/// The packages to assign, each with its group, in order.
pub open spec fn assignments(acts: Seq<ReviewActionView>) -> Seq<(PackageView, int)> {
    acts.filter(|a: ReviewActionView| a.0 == 2).map_values(|a: ReviewActionView| (a.1, a.2))
}

/// Packages with group indices, seen as views.
pub open spec fn assignments_view(v: Seq<(Package, usize)>) -> Seq<(PackageView, int)> {
    v.map_values(|x: (Package, usize)| (x.0@, x.1 as int))
}

/// Divide the decisions into the packages to delete, the packages to
/// assign to groups (with their groups) and the packages to mark as
/// dependencies, each in the order they were decided.
pub fn divide_actions(actions: Vec<ReviewAction>) -> (r: (Vec<Package>, Vec<(Package, usize)>, Vec<Package>))
    ensures
        packages_view(r.0@) == deletions(actions_view(actions@)),
        assignments_view(r.1@) == assignments(actions_view(actions@)),
        packages_view(r.2@) == dependencies(actions_view(actions@)),
{
    let ghost av = actions_view(actions@);
    let ghost p0 = |a: ReviewActionView| a.0 == 0;
    let ghost p1 = |a: ReviewActionView| a.0 == 1;
    let ghost p2 = |a: ReviewActionView| a.0 == 2;
    let ghost f1 = |a: ReviewActionView| a.1;
    let ghost f2 = |a: ReviewActionView| (a.1, a.2);
    let mut to_delete: Vec<Package> = Vec::new();
    let mut assign_group: Vec<(Package, usize)> = Vec::new();
    let mut as_dependency: Vec<Package> = Vec::new();
    let mut i: usize = 0;
    proof {
        assert(av.take(0) =~= Seq::<ReviewActionView>::empty());
        assert(av.take(0).filter(p0) =~= Seq::<ReviewActionView>::empty());
        assert(av.take(0).filter(p1) =~= Seq::<ReviewActionView>::empty());
        assert(av.take(0).filter(p2) =~= Seq::<ReviewActionView>::empty());
        assert(packages_view(to_delete@) =~= av.take(0).filter(p1).map_values(f1));
        assert(packages_view(as_dependency@) =~= av.take(0).filter(p0).map_values(f1));
        assert(assignments_view(assign_group@) =~= av.take(0).filter(p2).map_values(f2));
    }
    while i < actions.len()
        invariant
            i <= actions@.len(),
            av == actions_view(actions@),
            p0 == (|a: ReviewActionView| a.0 == 0),
            p1 == (|a: ReviewActionView| a.0 == 1),
            p2 == (|a: ReviewActionView| a.0 == 2),
            f1 == (|a: ReviewActionView| a.1),
            f2 == (|a: ReviewActionView| (a.1, a.2)),
            packages_view(to_delete@) == av.take(i as int).filter(p1).map_values(f1),
            packages_view(as_dependency@) == av.take(i as int).filter(p0).map_values(f1),
            assignments_view(assign_group@) == av.take(i as int).filter(p2).map_values(f2),
        decreases actions.len() - i,
    {
        let ghost x = av[i as int];
        proof {
            assert(av.take(i + 1) =~= av.take(i as int).push(x));
            av.take(i as int).lemma_filter_push(x, p0);
            av.take(i as int).lemma_filter_push(x, p1);
            av.take(i as int).lemma_filter_push(x, p2);
        }
        let ghost d0 = to_delete@;
        let ghost a0 = assign_group@;
        let ghost s0 = as_dependency@;
        match &actions[i] {
            ReviewAction::Delete(p) => {
                to_delete.push(p.clone());
                proof {
                    assert(packages_view(to_delete@) =~= packages_view(d0).push(p@));
                    assert(av.take(i + 1).filter(p1).map_values(f1) =~= av.take(i as int).filter(p1).map_values(f1).push(p@));
                    assert(av.take(i + 1).filter(p0) == av.take(i as int).filter(p0));
                    assert(av.take(i + 1).filter(p2) == av.take(i as int).filter(p2));
                }
            },
            ReviewAction::AssignGroup(p, g) => {
                assign_group.push((p.clone(), *g));
                proof {
                    assert(assignments_view(assign_group@) =~= assignments_view(a0).push((p@, *g as int)));
                    assert(av.take(i + 1).filter(p2).map_values(f2) =~= av.take(i as int).filter(p2).map_values(f2).push(
                        (p@, *g as int),
                    ));
                    assert(av.take(i + 1).filter(p0) == av.take(i as int).filter(p0));
                    assert(av.take(i + 1).filter(p1) == av.take(i as int).filter(p1));
                }
            },
            ReviewAction::AsDependency(p) => {
                as_dependency.push(p.clone());
                proof {
                    assert(packages_view(as_dependency@) =~= packages_view(s0).push(p@));
                    assert(av.take(i + 1).filter(p0).map_values(f1) =~= av.take(i as int).filter(p0).map_values(f1).push(p@));
                    assert(av.take(i + 1).filter(p1) == av.take(i as int).filter(p1));
                    assert(av.take(i + 1).filter(p2) == av.take(i as int).filter(p2));
                }
            },
        }
        i = i + 1;
    }
    proof {
        assert(av.take(av.len() as int) =~= av);
    }
    (to_delete, assign_group, as_dependency)
}

} // verus!

verus! {

/// One line per package: two spaces, the package, a newline.
pub open spec fn package_lines(ps: Seq<PackageView>) -> Seq<char>
    decreases ps.len(),
{
    if ps.len() == 0 {
        seq![]
    } else {
        package_lines(ps.drop_last()) + "  "@ + package_display(ps.last()) + seq!['\n']
    }
}

/// One line per assignment: two spaces, the package, ` -> `, the group's
/// name, a newline.
pub open spec fn assignment_lines(xs: Seq<(PackageView, int)>, names: Seq<Seq<char>>) -> Seq<char>
    decreases xs.len(),
{
    if xs.len() == 0 {
        seq![]
    } else {
        assignment_lines(xs.drop_last(), names) + "  "@ + package_display(xs.last().0) + " -> "@
            + names[xs.last().1] + seq!['\n']
    }
}

/// What a backend will do after the review: delete packages, mark packages
/// as dependencies, and assign packages to groups.
#[derive(Debug)]
pub struct Strategy {
    /// The section of the backend.
    pub section: String,
    pub delete: Vec<Package>,
    pub as_dependency: Vec<Package>,
    pub assign_group: Vec<(Package, usize)>,
}

/// What a strategy shows: nothing where it has nothing to do; otherwise
/// the backend's section in brackets, then each non-empty list under its
/// title.
#[verifier::opaque]
pub open spec fn strategy_text(
    section: Seq<char>,
    delete: Seq<PackageView>,
    as_dependency: Seq<PackageView>,
    assign: Seq<(PackageView, int)>,
    names: Seq<Seq<char>>,
) -> Seq<char> {
    if delete.len() == 0 && as_dependency.len() == 0 && assign.len() == 0 {
        seq![]
    } else {
        seq!['['] + section + "]\n"@ + (if delete.len() > 0 {
            "delete:\n"@ + package_lines(delete)
        } else {
            seq![]
        }) + (if as_dependency.len() > 0 {
            "as depdendency:\n"@ + package_lines(as_dependency)
        } else {
            seq![]
        }) + (if assign.len() > 0 {
            "assign groups:\n"@ + assignment_lines(assign, names)
        } else {
            seq![]
        })
    }
}

/// Every assignment names one of `n` groups.
pub open spec fn groups_in_range(xs: Seq<(PackageView, int)>, n: int) -> bool {
    forall|i: int| 0 <= i < xs.len() ==> 0 <= (#[trigger] xs[i]).1 < n
}

/// Append the package lines of `ps` to `out`.
fn push_package_lines(out: &mut Vec<char>, ps: &Vec<Package>)
    ensures
        final(out)@ == old(out)@ + package_lines(packages_view(ps@)),
{
    let ghost start = out@;
    let ghost pv = packages_view(ps@);
    let mut i: usize = 0;
    proof {
        assert(out@ =~= start + package_lines(pv.take(0)));
    }
    while i < ps.len()
        invariant
            i <= ps@.len(),
            pv == packages_view(ps@),
            out@ == start + package_lines(pv.take(i as int)),
        decreases ps.len() - i,
    {
        push_str_chars(out, "  ");
        let t = ps[i].to_string();
        push_str_chars(out, t.as_str());
        out.push('\n');
        proof {
            assert(pv.take(i + 1).drop_last() =~= pv.take(i as int));
            assert(pv.take(i + 1).last() == ps@[i as int]@);
            assert(out@ =~= start + package_lines(pv.take(i + 1)));
        }
        i = i + 1;
    }
    proof {
        assert(pv.take(pv.len() as int) =~= pv);
    }
}

/// Append the assignment lines of `xs` to `out`.
fn push_assignment_lines(out: &mut Vec<char>, xs: &Vec<(Package, usize)>, names: &Vec<String>)
    requires
        groups_in_range(assignments_view(xs@), names@.len() as int),
    ensures
        final(out)@ == old(out)@ + assignment_lines(assignments_view(xs@), names@.map_values(|s: String| s@)),
{
    let ghost start = out@;
    let ghost xv = assignments_view(xs@);
    let ghost nv = names@.map_values(|s: String| s@);
    let mut i: usize = 0;
    proof {
        assert(out@ =~= start + assignment_lines(xv.take(0), nv));
    }
    while i < xs.len()
        invariant
            i <= xs@.len(),
            xv == assignments_view(xs@),
            nv == names@.map_values(|s: String| s@),
            groups_in_range(xv, names@.len() as int),
            out@ == start + assignment_lines(xv.take(i as int), nv),
        decreases xs.len() - i,
    {
        proof {
            assert(xv[i as int] == (xs@[i as int].0@, xs@[i as int].1 as int));
            assert(0 <= xv[i as int].1 < names@.len());
        }
        let (p, g) = &xs[i];
        push_str_chars(out, "  ");
        let t = p.to_string();
        push_str_chars(out, t.as_str());
        push_str_chars(out, " -> ");
        push_str_chars(out, names[*g].as_str());
        out.push('\n');
        proof {
            assert(xv.take(i + 1).drop_last() =~= xv.take(i as int));
            assert(xv.take(i + 1).last() == xv[i as int]);
            assert(nv[*g as int] == names@[*g as int]@);
            assert(out@ =~= start + assignment_lines(xv.take(i + 1), nv));
        }
        i = i + 1;
    }
    proof {
        assert(xv.take(xv.len() as int) =~= xv);
    }
}

impl Strategy {
    /// A strategy for the backend of `section`.
    pub fn new(section: String, delete: Vec<Package>, as_dependency: Vec<Package>, assign_group: Vec<(Package, usize)>) -> (r: Self)
        ensures
            r.section == section,
            r.delete == delete,
            r.as_dependency == as_dependency,
            r.assign_group == assign_group,
    {
        Self { section, delete, as_dependency, assign_group }
    }

    /// Whether the strategy has nothing to do.
    pub fn nothing_to_do(&self) -> (r: bool)
        ensures
            r == (self.delete@.len() == 0 && self.as_dependency@.len() == 0 && self.assign_group@.len() == 0),
    {
        self.delete.len() == 0 && self.as_dependency.len() == 0 && self.assign_group.len() == 0
    }

    /// What the strategy shows; `names` are the names of the groups that
    /// the assignments refer to by index.
    pub fn show(&self, names: &Vec<String>) -> (r: String)
        requires
            groups_in_range(assignments_view(self.assign_group@), names@.len() as int),
        ensures
            r@ == strategy_text(
                self.section@,
                packages_view(self.delete@),
                packages_view(self.as_dependency@),
                assignments_view(self.assign_group@),
                names@.map_values(|s: String| s@),
            ),
            r@.len() == 0 <==> (self.delete@.len() == 0 && self.as_dependency@.len() == 0 && self.assign_group@.len() == 0),
    {
        reveal(strategy_text);
        let mut out: Vec<char> = Vec::new();
        if self.nothing_to_do() {
            return chars_to_string(out.as_slice());
        }
        out.push('[');
        push_str_chars(&mut out, self.section.as_str());
        push_str_chars(&mut out, "]\n");
        let ghost a = out@;
        if self.delete.len() > 0 {
            push_str_chars(&mut out, "delete:\n");
            push_package_lines(&mut out, &self.delete);
        }
        let ghost b = out@;
        if self.as_dependency.len() > 0 {
            push_str_chars(&mut out, "as depdendency:\n");
            push_package_lines(&mut out, &self.as_dependency);
        }
        let ghost c = out@;
        if self.assign_group.len() > 0 {
            push_str_chars(&mut out, "assign groups:\n");
            push_assignment_lines(&mut out, &self.assign_group, names);
        }
        proof {
            let names_v = names@.map_values(|s: String| s@);
            assert(a =~= seq!['['] + self.section@ + "]\n"@);
            assert(b =~= a + (if self.delete@.len() > 0 {
                "delete:\n"@ + package_lines(packages_view(self.delete@))
            } else {
                seq![]
            }));
            assert(c =~= b + (if self.as_dependency@.len() > 0 {
                "as depdendency:\n"@ + package_lines(packages_view(self.as_dependency@))
            } else {
                seq![]
            }));
            assert(out@ =~= c + (if self.assign_group@.len() > 0 {
                "assign groups:\n"@ + assignment_lines(assignments_view(self.assign_group@), names_v)
            } else {
                seq![]
            }));
        }
        chars_to_string(out.as_slice())
    }
}

/// The decisions made for each backend, with the backend's section.
#[derive(Debug)]
pub struct ReviewsPerBackend {
    pub items: Vec<(String, Vec<ReviewAction>)>,
}

impl ReviewsPerBackend {
    /// No decisions yet.
    pub fn new() -> (r: Self)
        ensures
            r.items@.len() == 0,
    {
        Self { items: Vec::new() }
    }

    /// Whether no backend has a decision.
    pub fn nothing_to_do(&self) -> (r: bool)
        ensures
            r == forall|i: int| 0 <= i < self.items@.len() ==> (#[trigger] self.items@[i]).1@.len() == 0,
    {
        let mut i: usize = 0;
        while i < self.items.len()
            invariant
                i <= self.items@.len(),
                forall|j: int| 0 <= j < i ==> (#[trigger] self.items@[j]).1@.len() == 0,
            decreases self.items.len() - i,
        {
            if self.items[i].1.len() > 0 {
                return false;
            }
            i = i + 1;
        }
        true
    }

    /// Add the decisions for one backend.
    pub fn push(&mut self, value: (String, Vec<ReviewAction>))
        ensures
            final(self).items@ == old(self).items@.push(value),
    {
        self.items.push(value);
    }

    /// One strategy per backend, in order: its decisions divided into
    /// packages to delete, to mark as dependencies and to assign.
    pub fn into_strategies(self) -> (r: Vec<Strategy>)
        ensures
            r@.len() == self.items@.len(),
            forall|i: int| #![trigger r@[i]] 0 <= i < r@.len() ==> {
                &&& r@[i].section == self.items@[i].0
                &&& packages_view(r@[i].delete@) == deletions(actions_view(self.items@[i].1@))
                &&& packages_view(r@[i].as_dependency@) == dependencies(actions_view(self.items@[i].1@))
                &&& assignments_view(r@[i].assign_group@) == assignments(actions_view(self.items@[i].1@))
            },
    {
        let ghost items = self.items@;
        let mut result: Vec<Strategy> = Vec::new();
        let mut rest = self.items;
        while rest.len() > 0
            invariant
                result@.len() + rest@.len() == items.len(),
                rest@ == items.skip(result@.len() as int),
                forall|i: int| #![trigger result@[i]] 0 <= i < result@.len() ==> {
                    &&& result@[i].section == items[i].0
                    &&& packages_view(result@[i].delete@) == deletions(actions_view(items[i].1@))
                    &&& packages_view(result@[i].as_dependency@) == dependencies(actions_view(items[i].1@))
                    &&& assignments_view(result@[i].assign_group@) == assignments(actions_view(items[i].1@))
                },
            decreases rest.len(),
        {
            let k = result.len();
            let item = rest.remove(0);
            proof {
                assert(item == items[k as int]);
                assert(rest@ =~= items.skip(k + 1));
            }
            let (section, actions) = item;
            let (to_delete, assign_group, as_dependency) = divide_actions(actions);
            result.push(Strategy::new(section, to_delete, as_dependency, assign_group));
        }
        result
    }
}

/// What the review shows before asking to go ahead: the text of each
/// strategy that has something to do, separated by empty lines.
pub open spec fn summary_of(texts: Seq<Seq<char>>) -> Seq<char>
    decreases texts.len(),
{
    if texts.len() == 0 {
        seq![]
    } else if texts.len() == 1 {
        texts[0]
    } else {
        summary_of(texts.drop_last()) + seq!['\n'] + texts.last()
    }
}

} // verus!

verus! {

/// The text a strategy shows.
pub open spec fn text_of(s: Strategy, names: Seq<Seq<char>>) -> Seq<char> {
    strategy_text(s.section@, packages_view(s.delete@), packages_view(s.as_dependency@), assignments_view(s.assign_group@), names)
}

/// The texts of the strategies that have something to do, in order.
pub open spec fn shown_texts(ss: Seq<Strategy>, names: Seq<Seq<char>>) -> Seq<Seq<char>> {
    ss.map_values(|s: Strategy| text_of(s, names)).filter(|t: Seq<char>| t.len() > 0)
}

/// The summary of the strategies: the text of each one that has something
/// to do, separated by empty lines.
pub fn review_summary(strategies: &Vec<Strategy>, names: &Vec<String>) -> (r: String)
    requires
        forall|i: int| 0 <= i < strategies@.len() ==> groups_in_range(
            assignments_view((#[trigger] strategies@[i]).assign_group@),
            names@.len() as int,
        ),
    ensures
        r@ == summary_of(shown_texts(strategies@, names@.map_values(|s: String| s@))),
{
    let ghost nv = names@.map_values(|s: String| s@);
    let ghost texts = strategies@.map_values(|s: Strategy| text_of(s, nv));
    let ghost keep = |t: Seq<char>| t.len() > 0;
    let mut out: Vec<char> = Vec::new();
    let mut shown: usize = 0;
    let mut i: usize = 0;
    proof {
        assert(texts.take(0).filter(keep) =~= Seq::<Seq<char>>::empty());
    }
    while i < strategies.len()
        invariant
            i <= strategies@.len(),
            nv == names@.map_values(|s: String| s@),
            texts == strategies@.map_values(|s: Strategy| text_of(s, nv)),
            keep == (|t: Seq<char>| t.len() > 0),
            forall|j: int| 0 <= j < strategies@.len() ==> groups_in_range(
                assignments_view((#[trigger] strategies@[j]).assign_group@),
                names@.len() as int,
            ),
            out@ == summary_of(texts.take(i as int).filter(keep)),
            shown as int == texts.take(i as int).filter(keep).len(),
        decreases strategies.len() - i,
    {
        let s = &strategies[i];
        proof {
            assert(texts.take(i + 1) =~= texts.take(i as int).push(texts[i as int]));
            texts.take(i as int).lemma_filter_push(texts[i as int], keep);
            assert(texts[i as int] == text_of(*s, nv));
        }
        let t = s.show(names);
        if !s.nothing_to_do() {
            let ghost before = out@;
            let ghost prev = texts.take(i as int).filter(keep);
            if shown > 0 {
                out.push('\n');
            }
            push_str_chars(&mut out, t.as_str());
            proof {
                assert(t@.len() > 0);
                let now = texts.take(i + 1).filter(keep);
                assert(now =~= prev.push(t@));
                assert(now.drop_last() =~= prev);
                if shown == 0 {
                    assert(prev.len() == 0);
                    assert(out@ =~= t@);
                } else {
                    assert(out@ =~= summary_of(prev) + seq!['\n'] + t@);
                }
            }
            shown = shown + 1;
        } else {
            proof {
                assert(t@.len() == 0);
            }
        }
        i = i + 1;
    }
    proof {
        assert(texts.take(texts.len() as int) =~= texts);
    }
    chars_to_string(out.as_slice())
}

} // verus!

verus! {

/// What carrying out a strategy takes, in order.
#[derive(Debug, Clone, Copy, PartialEq, Eq, Structural)]
pub enum StrategyStep {
    /// Remove the packages to delete.
    Remove,
    /// Mark the packages as dependencies.
    MakeDependency,
    /// Write the packages into their groups.
    AssignGroup,
}

/// The steps a strategy takes: removing, marking and assigning, each only
/// where it has packages.
pub open spec fn steps_spec(delete: nat, as_dependency: nat, assign: nat) -> Seq<StrategyStep> {
    (if delete > 0 {
        seq![StrategyStep::Remove]
    } else {
        seq![]
    }) + (if as_dependency > 0 {
        seq![StrategyStep::MakeDependency]
    } else {
        seq![]
    }) + (if assign > 0 {
        seq![StrategyStep::AssignGroup]
    } else {
        seq![]
    })
}

impl Strategy {
    /// The steps that carrying out the strategy takes, in order.
    pub fn execute(&self) -> (r: Vec<StrategyStep>)
        ensures
            r@ == steps_spec(self.delete@.len(), self.as_dependency@.len(), self.assign_group@.len()),
    {
        let mut steps: Vec<StrategyStep> = Vec::new();
        if self.delete.len() > 0 {
            steps.push(StrategyStep::Remove);
        }
        if self.as_dependency.len() > 0 {
            steps.push(StrategyStep::MakeDependency);
        }
        if self.assign_group.len() > 0 {
            steps.push(StrategyStep::AssignGroup);
        }
        proof {
            assert(steps@ =~= steps_spec(self.delete@.len(), self.as_dependency@.len(), self.assign_group@.len()));
        }
        steps
    }
}

} // verus!

verus! {

/// An answer records a decision only where it moves on to the next
/// package, and only the answers to assign, to delete or to mark as a
/// dependency record one.
pub proof fn lemma_recorded_only_when_moving_on(p: PackageView, intention: ReviewIntention, group: Option<usize>)
    ensures
        recorded_spec(p, intention, group) is Some ==> step_spec(intention, group) == ReviewStep::NextPackage,
        recorded_spec(p, intention, group) is Some <==> (intention == ReviewIntention::AsDependency || intention
            == ReviewIntention::Delete || (intention == ReviewIntention::AssignGroup && group is Some)),
{
}

/// The decisions after answering `intention` on `p`, given the decisions
/// `acts` before.
pub open spec fn after_answer(acts: Seq<ReviewActionView>, p: PackageView, intention: ReviewIntention, group: Option<usize>) -> Seq<ReviewActionView> {
    match recorded_spec(p, intention, group) {
        Some(a) => acts.push(a),
        None => acts,
    }
}

/// An answer files the package under what it asks for: answering delete
/// adds it to the packages to delete, answering as-dependency to the
/// packages to mark, assigning with a group to the assignments with that
/// group; every other list stays as it was, and every other answer changes
/// none of them.
pub proof fn lemma_answer_filed_by_kind(acts: Seq<ReviewActionView>, p: PackageView, intention: ReviewIntention, group: Option<usize>)
    ensures
        ({
            let after = after_answer(acts, p, intention, group);
            &&& deletions(after) == if intention == ReviewIntention::Delete {
                deletions(acts).push(p)
            } else {
                deletions(acts)
            }
            &&& dependencies(after) == if intention == ReviewIntention::AsDependency {
                dependencies(acts).push(p)
            } else {
                dependencies(acts)
            }
            &&& assignments(after) == match (intention, group) {
                (ReviewIntention::AssignGroup, Some(g)) => assignments(acts).push((p, g as int)),
                _ => assignments(acts),
            }
        }),
{
    let p0 = |a: ReviewActionView| a.0 == 0;
    let p1 = |a: ReviewActionView| a.0 == 1;
    let p2 = |a: ReviewActionView| a.0 == 2;
    match recorded_spec(p, intention, group) {
        Some(a) => {
            acts.lemma_filter_push(a, p0);
            acts.lemma_filter_push(a, p1);
            acts.lemma_filter_push(a, p2);
            assert(acts.filter(p0).push(a).map_values(|x: ReviewActionView| x.1) =~= acts.filter(p0).map_values(
                |x: ReviewActionView| x.1,
            ).push(a.1));
            assert(acts.filter(p1).push(a).map_values(|x: ReviewActionView| x.1) =~= acts.filter(p1).map_values(
                |x: ReviewActionView| x.1,
            ).push(a.1));
            assert(acts.filter(p2).push(a).map_values(|x: ReviewActionView| (x.1, x.2)) =~= acts.filter(p2).map_values(
                |x: ReviewActionView| (x.1, x.2),
            ).push((a.1, a.2)));
        },
        None => {},
    }
}

/// The answer keys: pressing `d` on a package files it for deletion, `a`
/// for marking as a dependency, `g` with a chosen group for that group;
/// `s` moves on, `i` shows the package's information, `q` ends the review,
/// and none of these three, nor any other key, decides anything. Any other
/// key asks again.
pub proof fn lemma_answer_keys(acts: Seq<ReviewActionView>, p: PackageView, group: Option<usize>, c: char)
    ensures
        deletions(after_answer(acts, p, intention_spec('d'), group)) == deletions(acts).push(p),
        dependencies(after_answer(acts, p, intention_spec('a'), group)) == dependencies(acts).push(p),
        group matches Some(g) ==> assignments(after_answer(acts, p, intention_spec('g'), group)) == assignments(
            acts,
        ).push((p, g as int)),
        step_spec(intention_spec('d'), group) == ReviewStep::NextPackage,
        step_spec(intention_spec('a'), group) == ReviewStep::NextPackage,
        step_spec(intention_spec('s'), group) == ReviewStep::NextPackage,
        step_spec(intention_spec('i'), group) == ReviewStep::ShowInfoAndAskAgain,
        step_spec(intention_spec('q'), group) == ReviewStep::Quit,
        after_answer(acts, p, intention_spec('s'), group) == acts,
        after_answer(acts, p, intention_spec('i'), group) == acts,
        after_answer(acts, p, intention_spec('q'), group) == acts,
        !(c == 'a' || c == 'd' || c == 'g' || c == 'i' || c == 'q' || c == 's') ==> after_answer(acts, p, intention_spec(c), group)
            == acts && step_spec(intention_spec(c), group) == ReviewStep::AskAgain,
{
    lemma_answer_filed_by_kind(acts, p, intention_spec('d'), group);
    lemma_answer_filed_by_kind(acts, p, intention_spec('a'), group);
    lemma_answer_filed_by_kind(acts, p, intention_spec('g'), group);
}

/// Dividing the decisions loses none and adds none: every decision is a
/// deletion, a marking as dependency or an assignment.
pub proof fn lemma_divide_partition(acts: Seq<ReviewActionView>)
    requires
        forall|i: int| 0 <= i < acts.len() ==> 0 <= (#[trigger] acts[i]).0 <= 2,
    ensures
        deletions(acts).len() + dependencies(acts).len() + assignments(acts).len() == acts.len(),
    decreases acts.len(),
{
    let p0 = |a: ReviewActionView| a.0 == 0;
    let p1 = |a: ReviewActionView| a.0 == 1;
    let p2 = |a: ReviewActionView| a.0 == 2;
    if acts.len() > 0 {
        let d = acts.drop_last();
        assert forall|i: int| 0 <= i < d.len() implies 0 <= (#[trigger] d[i]).0 <= 2 by {
            assert(d[i] == acts[i]);
        }
        lemma_divide_partition(d);
        assert(acts =~= d.push(acts.last()));
        d.lemma_filter_push(acts.last(), p0);
        d.lemma_filter_push(acts.last(), p1);
        d.lemma_filter_push(acts.last(), p2);
        assert(0 <= acts[acts.len() - 1].0 <= 2);
    } else {
        reveal(Seq::filter);
        assert(acts.filter(p0) =~= Seq::<ReviewActionView>::empty());
        assert(acts.filter(p1) =~= Seq::<ReviewActionView>::empty());
        assert(acts.filter(p2) =~= Seq::<ReviewActionView>::empty());
    }
}

} // verus!
