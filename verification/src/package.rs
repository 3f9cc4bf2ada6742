//! A package as written in a group file: a name with an optional
//! repository in front of it (`repo/name`), and the set semantics the
//! package lists follow.

use vstd::prelude::*;
use crate::text::{
    chars_to_string, copy_range, find_char, find_char_from, lemma_rfind_char_bounds,
    rfind, rfind_char, str_eq, str_to_chars, trim, trim_chars,
};

verus! {

/// A package: its name and, where given, its repository.
#[derive(Debug)]
pub struct Package {
    pub name: String,
    pub repo: Option<String>,
}

/// The characters of an optional string.
pub open spec fn opt_view(o: Option<String>) -> Option<Seq<char>> {
    match o {
        Some(s) => Some(s@),
        None => None,
    }
}

/// A package seen as its name and optional repository.
pub type PackageView = (Seq<char>, Option<Seq<char>>);

impl View for Package {
    type V = PackageView;

    open spec fn view(&self) -> PackageView {
        (self.name@, opt_view(self.repo))
    }
}

impl Clone for Package {
    fn clone(&self) -> (r: Self)
        ensures
            r == *self,
    {
        let repo = match &self.repo {
            Some(r) => Some(r.clone()),
            None => None,
        };
        Package { name: self.name.clone(), repo }
    }
}

/// The packages of a sequence, each seen as its view.
pub open spec fn packages_view(v: Seq<Package>) -> Seq<PackageView> {
    v.map_values(|p: Package| p@)
}

/// What is left of a line once the comment (from the first `#`) and the
/// surrounding whitespace are removed.
pub open spec fn package_text(s: Seq<char>) -> Seq<char> {
    trim(s.take(find_char(s, '#')))
}

/// The name part of `t`: what follows its last `/`, or all of `t`.
pub open spec fn name_part(t: Seq<char>) -> Seq<char> {
    t.skip(rfind_char(t, '/') + 1)
}

/// The repository part of `t`: the piece between the last two `/` (or
/// from the start to the last `/`), or none when `t` holds no `/`.
pub open spec fn repo_part(t: Seq<char>) -> Option<Seq<char>> {
    let k = rfind_char(t, '/');
    if k >= 0 {
        Some(name_part(t.take(k)))
    } else {
        None
    }
}

/// The package a line of a group file declares, if any.
pub open spec fn parse_package(s: Seq<char>) -> Option<PackageView> {
    let t = package_text(s);
    if t.len() == 0 {
        None
    } else {
        Some((name_part(t), repo_part(t)))
    }
}

/// Package equality: the names agree, and the repositories agree where
/// both packages name one.
pub open spec fn pkg_eq(a: PackageView, b: PackageView) -> bool {
    &&& a.0 == b.0
    &&& (a.1 is None || b.1 is None || a.1 == b.1)
}

/// Whether `v` holds a package equal to `p`.
pub open spec fn holds_package(v: Seq<PackageView>, p: PackageView) -> bool {
    exists|i: int| 0 <= i < v.len() && pkg_eq(v[i], p)
}

/// Set insertion: `p` is added at the end unless an equal package is
/// already present, in which case `v` stays as it is.
pub open spec fn set_insert(v: Seq<PackageView>, p: PackageView) -> Seq<PackageView> {
    if holds_package(v, p) {
        v
    } else {
        v.push(p)
    }
}

/// No two packages of `v` are equal.
pub open spec fn distinct_packages(v: Seq<PackageView>) -> bool {
    forall|i: int, j: int| 0 <= i < j < v.len() ==> !pkg_eq(v[i], v[j])
}

/// The set of packages that the lines declare, in order of first
/// appearance.
pub open spec fn packages_of(lines: Seq<Seq<char>>) -> Seq<PackageView>
    decreases lines.len(),
{
    if lines.len() == 0 {
        seq![]
    } else {
        let prev = packages_of(lines.drop_last());
        match parse_package(lines.last()) {
            Some(p) => set_insert(prev, p),
            None => prev,
        }
    }
}

/// The text a package is shown as: `repo/name`, or `name`.
pub open spec fn package_display(p: PackageView) -> Seq<char> {
    match p.1 {
        Some(r) => r + seq!['/'] + p.0,
        None => p.0,
    }
}

pub proof fn lemma_set_insert_distinct(v: Seq<PackageView>, p: PackageView)
    requires
        distinct_packages(v),
    ensures
        distinct_packages(set_insert(v, p)),
        forall|q: PackageView| holds_package(v, q) ==> holds_package(set_insert(v, p), q),
        holds_package(set_insert(v, p), p),
{
    let w = set_insert(v, p);
    if !holds_package(v, p) {
        assert forall|i: int, j: int| 0 <= i < j < w.len() implies !pkg_eq(w[i], w[j]) by {
            if j == v.len() {
                assert(w[i] == v[i]);
                assert(w[j] == p);
                if pkg_eq(v[i], p) {
                    assert(holds_package(v, p));
                }
            } else {
                assert(w[i] == v[i] && w[j] == v[j]);
            }
        }
        assert forall|q: PackageView| holds_package(v, q) implies holds_package(w, q) by {
            let i = choose|i: int| 0 <= i < v.len() && pkg_eq(v[i], q);
            assert(w[i] == v[i]);
        }
        assert(w[v.len() as int] == p);
        assert(pkg_eq(p, p));
    }
}

pub proof fn lemma_packages_of_distinct(lines: Seq<Seq<char>>)
    ensures
        distinct_packages(packages_of(lines)),
    decreases lines.len(),
{
    if lines.len() > 0 {
        lemma_packages_of_distinct(lines.drop_last());
        match parse_package(lines.last()) {
            Some(p) => lemma_set_insert_distinct(packages_of(lines.drop_last()), p),
            None => {},
        }
    }
}

/// The line without its comment and without surrounding whitespace.
pub fn remove_all_but_package_name(s: &str) -> (r: String)
    ensures
        r@ == package_text(s@),
{
    let chars = str_to_chars(s);
    let k = find_char_from(chars.as_slice(), '#', 0);
    proof {
        assert(chars@.skip(0) =~= chars@);
    }
    let before = copy_range(chars.as_slice(), 0, k);
    proof {
        assert(before@ =~= chars@.take(k as int));
    }
    let t = trim_chars(before.as_slice());
    chars_to_string(t.as_slice())
}

/// The name part of `t` (after the last `/`).
fn name_part_of(t: &[char]) -> (r: Vec<char>)
    ensures
        r@ == name_part(t@),
{
    proof {
        lemma_rfind_char_bounds(t@, '/');
    }
    match rfind(t, '/') {
        Some(k) => {
            assert(k < t@.len() && t@.len() == t.len());
            let r = copy_range(t, k + 1, t.len());
            proof {
                assert(r@ =~= t@.skip(k + 1));
            }
            r
        },
        None => {
            let r = copy_range(t, 0, t.len());
            proof {
                assert(r@ =~= t@.skip(0));
            }
            r
        },
    }
}

impl Package {
    /// Split `repo/name` into the name and the optional repository. Of a
    /// string with more than one `/`, the name is what follows the last `/`
    /// and the repository the piece before it.
    pub fn split_into_name_and_repo(s: &str) -> (r: (String, Option<String>))
        ensures
            r.0@ == name_part(s@),
            opt_view(r.1) == repo_part(s@),
    {
        let t = str_to_chars(s);
        let name = name_part_of(t.as_slice());
        proof {
            lemma_rfind_char_bounds(t@, '/');
        }
        let repo = match rfind(t.as_slice(), '/') {
            Some(k) => {
                let before = copy_range(t.as_slice(), 0, k);
                proof {
                    assert(before@ =~= t@.take(k as int));
                }
                let rp = name_part_of(before.as_slice());
                Some(chars_to_string(rp.as_slice()))
            },
            None => None,
        };
        (chars_to_string(name.as_slice()), repo)
    }

    /// The package declared by a line of a group file: `None` for a line
    /// that is empty once comment and whitespace are removed.
    pub fn try_from(s: &str) -> (r: Option<Package>)
        ensures
            match r {
                Some(p) => parse_package(s@) == Some(p@),
                None => parse_package(s@) is None,
            },
    {
        let trimmed = remove_all_but_package_name(s);
        if trimmed.as_str().is_empty() {
            return None;
        }
        let (name, repo) = Self::split_into_name_and_repo(trimmed.as_str());
        Some(Package { name, repo })
    }

    /// Package equality: same name, and the same repository unless one of
    /// the two names none.
    pub fn matches(&self, other: &Package) -> (r: bool)
        ensures
            r == pkg_eq(self@, other@),
    {
        if !str_eq(self.name.as_str(), other.name.as_str()) {
            return false;
        }
        match (&self.repo, &other.repo) {
            (Some(a), Some(b)) => str_eq(a.as_str(), b.as_str()),
            _ => true,
        }
    }

    /// The text the package is shown as: `repo/name`, or `name`.
    pub fn to_string(&self) -> (r: String)
        ensures
            r@ == package_display(self@),
    {
        match &self.repo {
            Some(repo) => {
                let mut v = str_to_chars(repo.as_str());
                v.push('/');
                let n = str_to_chars(self.name.as_str());
                let mut i: usize = 0;
                let ghost start = v@;
                while i < n.len()
                    invariant
                        i <= n@.len(),
                        v@ == start + n@.take(i as int),
                    decreases n.len() - i,
                {
                    v.push(n[i]);
                    i = i + 1;
                    assert(v@ =~= start + n@.take(i as int));
                }
                assert(n@.take(n@.len() as int) =~= n@);
                assert(start =~= repo@ + seq!['/']);
                chars_to_string(v.as_slice())
            },
            None => self.name.clone(),
        }
    }

    /// The set of packages that `lines` declare, each package once, in
    /// order of first appearance.
    pub fn from_lines(lines: &Vec<String>) -> (r: Vec<Package>)
        ensures
            packages_view(r@) == packages_of(lines@.map_values(|l: String| l@)),
            distinct_packages(packages_view(r@)),
    {
        let ghost ls = lines@.map_values(|l: String| l@);
        let mut out: Vec<Package> = Vec::new();
        let mut i: usize = 0;
        proof {
            assert(ls.take(0) =~= Seq::<Seq<char>>::empty());
            assert(packages_view(out@) =~= Seq::<PackageView>::empty());
        }
        while i < lines.len()
            invariant
                i <= lines@.len(),
                ls == lines@.map_values(|l: String| l@),
                packages_view(out@) == packages_of(ls.take(i as int)),
            decreases lines.len() - i,
        {
            proof {
                assert(ls.take(i + 1).drop_last() =~= ls.take(i as int));
                assert(ls.take(i + 1).last() == lines@[i as int]@);
            }
            match Package::try_from(lines[i].as_str()) {
                Some(p) => insert_package(&mut out, p),
                None => {},
            }
            i = i + 1;
        }
        proof {
            assert(ls.take(lines@.len() as int) =~= ls);
            lemma_packages_of_distinct(ls);
        }
        out
    }
}

/// Whether `v` holds a package equal to `p`.
pub fn contains_package(v: &Vec<Package>, p: &Package) -> (r: bool)
    ensures
        r == holds_package(packages_view(v@), p@),
{
    let mut i: usize = 0;
    while i < v.len()
        invariant
            i <= v@.len(),
            forall|j: int| 0 <= j < i ==> !pkg_eq(v@[j]@, p@),
        decreases v.len() - i,
    {
        if v[i].matches(p) {
            proof {
                assert(packages_view(v@)[i as int] == v@[i as int]@);
            }
            return true;
        }
        i = i + 1;
    }
    proof {
        let pv = packages_view(v@);
        assert forall|j: int| 0 <= j < pv.len() implies !pkg_eq(pv[j], p@) by {
            assert(pv[j] == v@[j]@);
        }
    }
    false
}

/// Insert `p` into the package set `v`: nothing changes when an equal
/// package is present, otherwise `p` is appended.
pub fn insert_package(v: &mut Vec<Package>, p: Package)
    ensures
        packages_view(final(v)@) == set_insert(packages_view(old(v)@), p@),
{
    if !contains_package(v, &p) {
        let ghost before = v@;
        v.push(p);
        proof {
            assert(packages_view(v@) =~= packages_view(before).push(p@));
        }
    }
}

} // verus!

verus! {

/// Everything after a `#` is ignored: a line declares the same package as
/// its part before the first `#`.
pub proof fn lemma_comment_ignored(line: Seq<char>)
    ensures
        parse_package(line) == parse_package(line.take(find_char(line, '#'))),
{
    let k = find_char(line, '#');
    crate::text::lemma_find_char_bounds(line, '#');
    let t = line.take(k);
    assert forall|j: int| 0 <= j < t.len() implies t[j] != '#' by {
        assert(t[j] == line[j]);
    }
    crate::text::lemma_find_char_at(t, '#', t.len() as int);
    assert(t.take(t.len() as int) =~= t);
}

/// Whether a name can stand in a group file as written: not empty, no `/`
/// or `#`, and no whitespace at its end.
pub open spec fn plain_name(s: Seq<char>) -> bool {
    &&& s.len() > 0
    &&& forall|j: int| 0 <= j < s.len() ==> s[j] != '/' && s[j] != '#'
    &&& !crate::text::is_ws(s.last())
}

/// Whether a package is written so that reading its text gives it back:
/// a plain name and, where given, a repository without `/` or `#`; the text
/// starts with no whitespace.
pub open spec fn writable_package(p: PackageView) -> bool {
    &&& plain_name(p.0)
    &&& match p.1 {
        Some(r) => (forall|j: int| 0 <= j < r.len() ==> r[j] != '/' && r[j] != '#') && (r.len() > 0
            ==> !crate::text::is_ws(r[0])),
        None => !crate::text::is_ws(p.0[0]),
    }
}

/// Reading the text a package is shown as gives the package back.
pub proof fn lemma_display_roundtrip(p: PackageView)
    requires
        writable_package(p),
    ensures
        parse_package(package_display(p)) == Some(p),
{
    let d = package_display(p);
    assert(d.len() > 0);
    assert forall|j: int| 0 <= j < d.len() implies d[j] != '#' by {
        match p.1 {
            Some(r) => {
                if j < r.len() {
                    assert(d[j] == r[j]);
                } else if j > r.len() {
                    assert(d[j] == p.0[j - r.len() - 1]);
                }
            },
            None => {},
        }
    }
    crate::text::lemma_find_char_at(d, '#', d.len() as int);
    assert(d.take(d.len() as int) =~= d);
    assert(!crate::text::is_ws(d[0])) by {
        match p.1 {
            Some(r) => {
                if r.len() == 0 {
                    assert(d[0] == '/');
                } else {
                    assert(d[0] == r[0]);
                }
            },
            None => {},
        }
    }
    assert(d.last() == p.0.last());
    assert(crate::text::trim_start(d) == d);
    assert(crate::text::trim_end(d) == d);
    assert(package_text(d) == d);
    match p.1 {
        Some(r) => {
            let k = r.len() as int;
            assert(d[k] == '/');
            assert forall|j: int| k < j < d.len() implies d[j] != '/' by {
                assert(d[j] == p.0[j - k - 1]);
            }
            crate::text::lemma_rfind_char_at(d, '/', k);
            assert(d.skip(k + 1) =~= p.0);
            assert(d.take(k) =~= r);
            crate::text::lemma_rfind_char_at(r, '/', -1);
            assert(r.skip(0) =~= r);
        },
        None => {
            crate::text::lemma_rfind_char_at(d, '/', -1);
            assert(d.skip(0) =~= d);
        },
    }
}

/// Showing the package a plain entry declares gives the entry back: an
/// entry without surrounding whitespace, comment or second `/` reads as a
/// package whose text is the entry itself.
pub proof fn lemma_parse_display_roundtrip(t: Seq<char>)
    requires
        t.len() > 0,
        crate::text::trim(t) == t,
        forall|j: int| 0 <= j < t.len() ==> t[j] != '#',
        forall|i: int, j: int| 0 <= i < j < t.len() ==> !(t[i] == '/' && t[j] == '/'),
    ensures
        parse_package(t) matches Some(p) && package_display(p) == t,
{
    crate::text::lemma_find_char_at(t, '#', t.len() as int);
    assert(t.take(t.len() as int) =~= t);
    assert(package_text(t) == t);
    crate::text::lemma_rfind_char_bounds(t, '/');
    let k = rfind_char(t, '/');
    if k >= 0 {
        let head = t.take(k);
        assert forall|j: int| -1 < j < head.len() implies head[j] != '/' by {
            assert(head[j] == t[j]);
        }
        crate::text::lemma_rfind_char_at(head, '/', -1);
        assert(head.skip(0) =~= head);
        assert(head + seq!['/'] + t.skip(k + 1) =~= t);
    } else {
        assert(t.skip(0) =~= t);
    }
}

/// Empty lines, and lines of whitespace, declare no package.
pub proof fn lemma_blank_line(line: Seq<char>)
    requires
        forall|j: int| 0 <= j < line.len() ==> crate::text::is_ws(line[j]),
    ensures
        parse_package(line) is None,
{
    let k = find_char(line, '#');
    crate::text::lemma_find_char_bounds(line, '#');
    let t = line.take(k);
    assert forall|j: int| 0 <= j < t.len() implies crate::text::is_ws(t[j]) by {
        assert(t[j] == line[j]);
    }
    crate::text::lemma_trim_start_skip(t, t.len() as int);
    assert(t.skip(t.len() as int) =~= Seq::<char>::empty());
}

} // verus!
