//! A section of a group file: a `[name]` header line and the packages
//! listed on the lines below it, up to the next header.

use vstd::prelude::*;
use crate::package::{
    Package, PackageView, distinct_packages, insert_package, lemma_packages_of_distinct,
    packages_of, packages_view, };
use crate::text::{chars_to_string, header_chars, str_to_chars, strip_leading, strip_trailing, trim};

verus! {

/// A section: its name and the set of its packages.
#[derive(Debug)]
pub struct Section {
    pub name: String,
    pub packages: Vec<Package>,
}

/// A section seen as its name and its packages.
pub type SectionView = (Seq<char>, Seq<PackageView>);

impl View for Section {
    type V = SectionView;

    open spec fn view(&self) -> SectionView {
        (self.name@, packages_view(self.packages@))
    }
}

/// Whether a line starts a section: its first character is `[`.
pub open spec fn is_header(l: Seq<char>) -> bool {
    l.len() > 0 && l[0] == '['
}

/// Index of the first header line at or after `pos`, or the number of
/// lines when there is none.
pub open spec fn next_header(ls: Seq<Seq<char>>, pos: int) -> int
    decreases ls.len() - pos,
{
    if pos >= ls.len() {
        ls.len() as int
    } else if is_header(ls[pos]) {
        pos
    } else {
        next_header(ls, pos + 1)
    }
}

/// The name a header line gives: the trimmed line without its leading `[`
/// and trailing `]` characters.
pub open spec fn header_name(l: Seq<char>) -> Seq<char> {
    strip_trailing(strip_leading(trim(l), '['), ']')
}

/// The section read from `ls` starting at `pos`, and the position after
/// it. Lines before the first header are passed over; without a header,
/// there is no section and every line is used up.
pub open spec fn section_at(ls: Seq<Seq<char>>, pos: int) -> (Option<SectionView>, int) {
    let h = next_header(ls, pos);
    if h >= ls.len() {
        (None, ls.len() as int)
    } else {
        let e = next_header(ls, h + 1);
        (Some((header_name(ls[h]), packages_of(ls.subrange(h + 1, e)))), e)
    }
}

pub proof fn lemma_next_header_bounds(ls: Seq<Seq<char>>, pos: int)
    requires
        0 <= pos,
    ensures
        pos <= next_header(ls, pos) || (pos > ls.len() && next_header(ls, pos) == ls.len()),
        next_header(ls, pos) <= ls.len(),
        next_header(ls, pos) < ls.len() ==> is_header(ls[next_header(ls, pos)]),
        forall|j: int| pos <= j < next_header(ls, pos) ==> !is_header(ls[j]),
    decreases ls.len() - pos,
{
    if pos < ls.len() && !is_header(ls[pos]) {
        lemma_next_header_bounds(ls, pos + 1);
    }
}

pub proof fn lemma_next_header_at(ls: Seq<Seq<char>>, pos: int, i: int)
    requires
        0 <= pos <= i <= ls.len(),
        forall|j: int| pos <= j < i ==> !is_header(ls[j]),
        i == ls.len() || is_header(ls[i]),
    ensures
        next_header(ls, pos) == i,
    decreases i - pos,
{
    if pos < i {
        lemma_next_header_at(ls, pos + 1, i);
    }
}

/// Whether the line starts a section.
pub fn is_header_line(s: &str) -> (r: bool)
    ensures
        r == is_header(s@),
{
    let c = str_to_chars(s);
    c.len() > 0 && c[0] == '['
}

impl Section {
    /// A section with the given name and packages.
    pub fn new(name: String, packages: Vec<Package>) -> (r: Section)
        ensures
            r.name == name,
            r.packages == packages,
    {
        Section { name, packages }
    }

    /// Read the next section from `lines`, starting at `pos`: pass over
    /// lines up to the first header, take its name, and collect the
    /// packages of the lines up to the next header. Returns the section,
    /// or `None` when no header follows, and the position after it.
    pub fn try_from_lines(lines: &Vec<String>, pos: usize) -> (r: (Option<Section>, usize))
        requires
            pos <= lines@.len(),
        ensures
            ({
                let (s, e) = section_at(lines@.map_values(|l: String| l@), pos as int);
                &&& r.1 == e
                &&& match r.0 {
                    Some(sec) => s == Some(sec@),
                    None => s is None,
                }
            }),
            r.0 matches Some(sec) ==> distinct_packages(sec@.1),
            pos < r.1 <= lines@.len() || (pos == lines@.len() && r.1 == pos),
    {
        let ghost ls = lines@.map_values(|l: String| l@);
        let mut h = pos;
        while h < lines.len() && !is_header_line(lines[h].as_str())
            invariant
                pos <= h <= lines@.len(),
                ls == lines@.map_values(|l: String| l@),
                forall|j: int| pos <= j < h ==> !is_header(ls[j]),
            decreases lines.len() - h,
        {
            h = h + 1;
        }
        proof {
            if h < lines@.len() {
                assert(ls[h as int] == lines@[h as int]@);
            }
            lemma_next_header_at(ls, pos as int, h as int);
        }
        if h >= lines.len() {
            return (None, lines.len());
        }
        let name_chars = header_chars(str_to_chars(lines[h].as_str()).as_slice());
        let name = chars_to_string(name_chars.as_slice());
        let mut packages: Vec<Package> = Vec::new();
        let mut i = h + 1;
        proof {
            assert(ls.subrange(h + 1, h + 1) =~= Seq::<Seq<char>>::empty());
            assert(packages_view(packages@) =~= Seq::<PackageView>::empty());
        }
        while i < lines.len() && !is_header_line(lines[i].as_str())
            invariant
                h + 1 <= i <= lines@.len(),
                ls == lines@.map_values(|l: String| l@),
                forall|j: int| h + 1 <= j < i ==> !is_header(ls[j]),
                packages_view(packages@) == packages_of(ls.subrange(h + 1, i as int)),
            decreases lines.len() - i,
        {
            proof {
                assert(ls.subrange(h + 1, i + 1).drop_last() =~= ls.subrange(h + 1, i as int));
                assert(ls.subrange(h + 1, i + 1).last() == lines@[i as int]@);
            }
            match Package::try_from(lines[i].as_str()) {
                Some(p) => insert_package(&mut packages, p),
                None => {},
            }
            i = i + 1;
        }
        proof {
            if i < lines@.len() {
                assert(ls[i as int] == lines@[i as int]@);
            }
            lemma_next_header_at(ls, h + 1, i as int);
            lemma_packages_of_distinct(ls.subrange(h + 1, i as int));
        }
        (Some(Section { name, packages }), i)
    }
}

} // verus!
