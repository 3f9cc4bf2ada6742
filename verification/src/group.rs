//! A group file: its name (its path relative to the group directory), the
//! sections it holds, and its path. Also the edits that add packages to a
//! group file's text.

use vstd::prelude::*;
use crate::package::{Package, PackageView, package_display, packages_view};
use crate::path::{
    agrees_with_base, components, get_relative_path, join_path, join_with_slash, path_components,
    relative_components,
};
use crate::section::{Section, SectionView, lemma_next_header_bounds, next_header, section_at};
use crate::text::{
    chars_to_string, copy_range, find_char, find_char_from, lines_of,
    split_lines, str_to_chars,
};

verus! {

/// A group: its name, its sections (no two with the same name), and the
/// path of its file.
#[derive(Debug)]
pub struct Group {
    pub name: String,
    pub sections: Vec<Section>,
    pub path: String,
}

/// The sections of a group, each seen as its view.
pub open spec fn sections_view(v: Seq<Section>) -> Seq<SectionView> {
    v.map_values(|s: Section| s@)
}

/// Whether `acc` holds a section named `name`.
pub open spec fn has_section(acc: Seq<SectionView>, name: Seq<char>) -> bool {
    exists|i: int| 0 <= i < acc.len() && acc[i].0 == name
}

/// Set insertion by name: a section whose name is already present is
/// dropped.
pub open spec fn insert_section(acc: Seq<SectionView>, s: SectionView) -> Seq<SectionView> {
    if has_section(acc, s.0) {
        acc
    } else {
        acc.push(s)
    }
}

/// No two sections share a name.
pub open spec fn distinct_sections(v: Seq<SectionView>) -> bool {
    forall|i: int, j: int| 0 <= i < j < v.len() ==> v[i].0 != v[j].0
}

/// The sections read from `ls` from `pos` on, added to `acc`.
pub open spec fn sections_from(ls: Seq<Seq<char>>, pos: int, acc: Seq<SectionView>) -> Seq<SectionView>
    decreases ls.len() - pos,
{
    if pos < 0 || pos >= ls.len() {
        acc
    } else {
        let (s, e) = section_at(ls, pos);
        proof {
            lemma_next_header_bounds(ls, pos);
            lemma_next_header_bounds(ls, next_header(ls, pos) + 1);
        }
        let acc2 = match s {
            Some(sv) => insert_section(acc, sv),
            None => acc,
        };
        if e <= pos {
            acc2
        } else {
            sections_from(ls, e, acc2)
        }
    }
}

/// The sections of a group file's text.
pub open spec fn parse_sections(content: Seq<char>) -> Seq<SectionView> {
    sections_from(lines_of(content), 0, seq![])
}

/// Whether `path` lies under `dir` with at least one component more.
pub open spec fn valid_group_path(path: Seq<char>, dir: Seq<char>) -> bool {
    &&& agrees_with_base(path, dir)
    &&& path_components(join_path(relative_components(path, dir))).len() > 0
}

/// The name of the group whose file is `path` in the group directory
/// `dir`: the components of the relative path joined with `/`.
pub open spec fn group_name(path: Seq<char>, dir: Seq<char>) -> Seq<char> {
    join_with_slash(path_components(join_path(relative_components(path, dir))))
}

/// Whether `path` lies under `dir` with at least one component more, so
/// that a group name can be taken from it.
pub fn is_valid_group_path(path: &str, dir: &str) -> (r: bool)
    ensures
        r == valid_group_path(path@, dir@),
{
    let f = components(path);
    let b = components(dir);
    let ghost fv = f@.map_values(|c: String| c@);
    let ghost bv = b@.map_values(|c: String| c@);
    let mut i: usize = 0;
    while i < f.len() && i < b.len()
        invariant
            i <= f@.len(),
            i <= b@.len(),
            fv == f@.map_values(|c: String| c@),
            bv == b@.map_values(|c: String| c@),
            fv == path_components(path@),
            bv == path_components(dir@),
            forall|j: int| 0 <= j < i ==> fv[j] == bv[j],
        decreases f.len() - i,
    {
        if !crate::text::str_eq(f[i].as_str(), b[i].as_str()) {
            proof {
                assert(fv[i as int] == f@[i as int]@);
                assert(bv[i as int] == b@[i as int]@);
                assert(fv[i as int] != bv[i as int]);
                let pf = path_components(path@);
                let pb = path_components(dir@);
                assert(pf[i as int] != pb[i as int]);
                assert(!agrees_with_base(path@, dir@));
            }
            return false;
        }
        i = i + 1;
    }
    let rel = get_relative_path(path, dir);
    let rc = components(rel.as_str());
    rc.len() > 0
}

/// The name of the group whose file is `path` in the group directory
/// `group_path`: its relative path, components joined with `/`.
pub fn extract_group_name(path: &str, group_path: &str) -> (r: String)
    requires
        valid_group_path(path@, group_path@),
    ensures
        r@ == group_name(path@, group_path@),
{
    let rel = get_relative_path(path, group_path);
    let cs = components(rel.as_str());
    let ghost cv = cs@.map_values(|c: String| c@);
    let mut out: Vec<char> = str_to_chars(cs[0].as_str());
    let mut i: usize = 1;
    proof {
        assert(cv.take(1) =~= seq![cv[0]]);
        assert(cv[0] == cs@[0]@);
    }
    while i < cs.len()
        invariant
            1 <= i <= cs@.len(),
            cv == cs@.map_values(|c: String| c@),
            out@ == join_with_slash(cv.take(i as int)),
        decreases cs.len() - i,
    {
        out.push('/');
        let piece = str_to_chars(cs[i].as_str());
        let ghost start = out@;
        let mut k: usize = 0;
        while k < piece.len()
            invariant
                k <= piece@.len(),
                out@ == start + piece@.take(k as int),
            decreases piece.len() - k,
        {
            out.push(piece[k]);
            k = k + 1;
            assert(out@ =~= start + piece@.take(k as int));
        }
        proof {
            assert(piece@.take(piece@.len() as int) =~= piece@);
            assert(cv.take(i + 1).drop_last() =~= cv.take(i as int));
            assert(cv.take(i + 1).last() == cs@[i as int]@);
        }
        i = i + 1;
    }
    proof {
        assert(cv.take(cv.len() as int) =~= cv);
    }
    chars_to_string(out.as_slice())
}

/// Whether the sections hold one named `name`.
pub fn contains_section(v: &Vec<Section>, name: &String) -> (r: bool)
    ensures
        r == has_section(sections_view(v@), name@),
{
    let mut i: usize = 0;
    while i < v.len()
        invariant
            i <= v@.len(),
            forall|j: int| 0 <= j < i ==> v@[j].name@ != name@,
        decreases v.len() - i,
    {
        if crate::text::str_eq(v[i].name.as_str(), name.as_str()) {
            proof {
                assert(sections_view(v@)[i as int].0 == v@[i as int].name@);
            }
            return true;
        }
        i = i + 1;
    }
    proof {
        assert forall|j: int| 0 <= j < v@.len() implies sections_view(v@)[j].0 != name@ by {
            assert(sections_view(v@)[j] == v@[j]@);
        }
    }
    false
}

pub proof fn lemma_insert_section_distinct(acc: Seq<SectionView>, s: SectionView)
    requires
        distinct_sections(acc),
    ensures
        distinct_sections(insert_section(acc, s)),
{
    if !has_section(acc, s.0) {
        let w = acc.push(s);
        assert forall|i: int, j: int| 0 <= i < j < w.len() implies w[i].0 != w[j].0 by {
            if j == acc.len() {
                assert(w[i] == acc[i]);
                if acc[i].0 == s.0 {
                    assert(has_section(acc, s.0));
                }
            } else {
                assert(w[i] == acc[i] && w[j] == acc[j]);
            }
        }
    }
}

pub proof fn lemma_sections_from_distinct(ls: Seq<Seq<char>>, pos: int, acc: Seq<SectionView>)
    requires
        distinct_sections(acc),
    ensures
        distinct_sections(sections_from(ls, pos, acc)),
    decreases ls.len() - pos,
{
    if 0 <= pos < ls.len() {
        let (s, e) = section_at(ls, pos);
        lemma_next_header_bounds(ls, pos);
        lemma_next_header_bounds(ls, next_header(ls, pos) + 1);
        let acc2 = match s {
            Some(sv) => insert_section(acc, sv),
            None => acc,
        };
        match s {
            Some(sv) => lemma_insert_section_distinct(acc, sv),
            None => {},
        }
        if e > pos {
            lemma_sections_from_distinct(ls, e, acc2);
        }
    }
}

/// The lines of a group file (`str::lines`).
fn file_lines(content: &str) -> (r: Vec<String>)
    ensures
        r@.map_values(|l: String| l@) == lines_of(content@),
{
    let chars = str_to_chars(content);
    let line_chars = split_lines(chars.as_slice());
    let mut lines: Vec<String> = Vec::new();
    let mut k: usize = 0;
    while k < line_chars.len()
        invariant
            k <= line_chars@.len(),
            lines@.len() == k,
            forall|j: int| 0 <= j < k ==> lines@[j]@ == line_chars@[j]@,
        decreases line_chars.len() - k,
    {
        lines.push(chars_to_string(line_chars[k].as_slice()));
        k = k + 1;
    }
    proof {
        assert(lines@.map_values(|l: String| l@) =~= line_chars@.map_values(|l: Vec<char>| l@));
    }
    lines
}

/// How many times reading sections from `ls`, from `pos` on, meets lines
/// that form no section (lines with no header after them).
pub open spec fn unreadable_from(ls: Seq<Seq<char>>, pos: int) -> nat
    decreases ls.len() - pos,
{
    if pos < 0 || pos >= ls.len() {
        0
    } else {
        let (s, e) = section_at(ls, pos);
        proof {
            lemma_next_header_bounds(ls, pos);
            lemma_next_header_bounds(ls, next_header(ls, pos) + 1);
        }
        let here: nat = if s is None { 1 } else { 0 };
        if e <= pos {
            here
        } else {
            here + unreadable_from(ls, e)
        }
    }
}

/// The number of sections of a group file's text that cannot be read, each
/// worth a warning when the group is loaded.
pub fn unreadable_sections(content: &str) -> (r: usize)
    ensures
        r == unreadable_from(lines_of(content@), 0),
{
    let lines = file_lines(content);
    let ghost ls = lines@.map_values(|l: String| l@);
    let mut count: usize = 0;
    let mut pos: usize = 0;
    while pos < lines.len()
        invariant
            pos <= lines@.len(),
            ls == lines@.map_values(|l: String| l@),
            count <= pos,
            unreadable_from(ls, 0) == count + unreadable_from(ls, pos as int),
        decreases lines.len() - pos,
    {
        let (s, e) = Section::try_from_lines(&lines, pos);
        if s.is_none() {
            count = count + 1;
        }
        pos = e;
    }
    count
}

/// The sections of a group file's text, each name once: a later section
/// with a name already seen is dropped.
pub fn parse_group_sections(content: &str) -> (r: Vec<Section>)
    ensures
        sections_view(r@) == parse_sections(content@),
        distinct_sections(sections_view(r@)),
{
    let lines = file_lines(content);
    let ghost ls = lines@.map_values(|l: String| l@);
    let mut out: Vec<Section> = Vec::new();
    let mut pos: usize = 0;
    proof {
        assert(sections_view(out@) =~= Seq::<SectionView>::empty());
    }
    while pos < lines.len()
        invariant
            pos <= lines@.len(),
            ls == lines@.map_values(|l: String| l@),
            sections_from(ls, 0, seq![]) == sections_from(ls, pos as int, sections_view(out@)),
            distinct_sections(sections_view(out@)),
        decreases lines.len() - pos,
    {
        let (s, e) = Section::try_from_lines(&lines, pos);
        let ghost old_view = sections_view(out@);
        match s {
            Some(sec) => {
                if !contains_section(&out, &sec.name) {
                    out.push(sec);
                    proof {
                        assert(sections_view(out@) =~= old_view.push(sec@));
                    }
                }
                proof {
                    lemma_insert_section_distinct(old_view, sec@);
                }
            },
            None => {},
        }
        pos = e;
    }
    out
}

impl Group {
    /// The group whose file at `path`, in the group directory `group_dir`,
    /// holds `content`. Its name is the file's path relative to the group
    /// directory; its sections are those of the content.
    pub fn try_from(path: &str, group_dir: &str, content: &str) -> (r: Group)
        requires
            valid_group_path(path@, group_dir@),
        ensures
            r.name@ == group_name(path@, group_dir@),
            sections_view(r.sections@) == parse_sections(content@),
            distinct_sections(sections_view(r.sections@)),
            r.path@ == path@,
    {
        let name = extract_group_name(path, group_dir);
        let sections = parse_group_sections(content);
        Group { name, sections, path: crate::text::chars_to_string(str_to_chars(path).as_slice()) }
    }
}

} // verus!

verus! {

/// Whether `pat` occurs in `s` at position `i`.
pub open spec fn occurs_at(s: Seq<char>, pat: Seq<char>, i: int) -> bool {
    0 <= i && i + pat.len() <= s.len() && s.subrange(i, i + pat.len()) == pat
}

/// The first position at or after `from` where `pat` occurs in `s`, or
/// `-1` when there is none.
pub open spec fn find_sub(s: Seq<char>, pat: Seq<char>, from: int) -> int
    decreases s.len() + 1 - from,
{
    if from < 0 || from + pat.len() > s.len() {
        -1
    } else if occurs_at(s, pat, from) {
        from
    } else {
        find_sub(s, pat, from + 1)
    }
}

/// The lines written for packages: each package's text and a newline.
pub open spec fn package_lines(ps: Seq<PackageView>) -> Seq<char>
    decreases ps.len(),
{
    if ps.len() == 0 {
        seq![]
    } else {
        package_lines(ps.drop_last()) + package_display(ps.last()) + seq!['\n']
    }
}

/// The position right after the newline that ends the first line holding
/// `header`: `None` when `header` does not occur or no newline follows it.
pub open spec fn first_package_line(content: Seq<char>, header: Seq<char>) -> Option<int> {
    let start = find_sub(content, header, 0);
    if start < 0 {
        None
    } else {
        let d = find_char(content.skip(start), '\n');
        if start + d >= content.len() {
            None
        } else {
            Some(start + d + 1)
        }
    }
}

/// Why packages could not be written under an existing section header.
#[derive(Debug, PartialEq, Eq, Structural)]
pub enum SectionEditError {
    /// The header does not occur in the text.
    HeaderNotFound,
    /// No newline follows the header.
    NoNewlineAfterHeader,
}

pub proof fn lemma_find_sub_at(s: Seq<char>, pat: Seq<char>, from: int, i: int)
    requires
        0 <= from <= i,
        forall|j: int| from <= j < i ==> !occurs_at(s, pat, j),
        occurs_at(s, pat, i) || i + pat.len() > s.len(),
    ensures
        find_sub(s, pat, from) == (if occurs_at(s, pat, i) { i } else { -1 }),
    decreases i - from,
{
    if from < i {
        if from + pat.len() > s.len() {
        } else {
            lemma_find_sub_at(s, pat, from + 1, i);
        }
    }
}

/// Whether `pat` occurs in `s` at position `i`.
fn matches_at(s: &[char], pat: &[char], i: usize) -> (r: bool)
    requires
        i + pat@.len() <= s@.len(),
    ensures
        r == occurs_at(s@, pat@, i as int),
{
    let n = s.len();
    let mut k: usize = 0;
    while k < pat.len()
        invariant
            n == s@.len(),
            i + pat@.len() <= s@.len(),
            k <= pat@.len(),
            forall|m: int| 0 <= m < k ==> s@[i + m] == pat@[m],
        decreases pat.len() - k,
    {
        if s[i + k] != pat[k] {
            proof {
                assert(s@.subrange(i as int, i + pat@.len())[k as int] == s@[i + k]);
            }
            return false;
        }
        k = k + 1;
    }
    proof {
        assert(s@.subrange(i as int, i + pat@.len()) =~= pat@);
    }
    true
}

/// The first position where `pat` occurs in `s`.
pub fn find_sub_chars(s: &[char], pat: &[char]) -> (r: Option<usize>)
    ensures
        match r {
            Some(i) => i == find_sub(s@, pat@, 0),
            None => find_sub(s@, pat@, 0) == -1,
        },
{
    if pat.len() > s.len() {
        return None;
    }
    let n = s.len();
    let last = n - pat.len();
    let mut i: usize = 0;
    loop
        invariant
            n == s@.len(),
            last == s@.len() - pat@.len(),
            i <= last,
            forall|j: int| 0 <= j < i ==> !occurs_at(s@, pat@, j),
        decreases last - i,
    {
        if matches_at(s, pat, i) {
            proof {
                lemma_find_sub_at(s@, pat@, 0, i as int);
            }
            return Some(i);
        }
        if i == last {
            proof {
                lemma_find_sub_at(s@, pat@, 0, i + 1);
            }
            return None;
        }
        i = i + 1;
    }
}

/// Append the lines written for `packages` to `v`.
fn push_package_lines(v: &mut Vec<char>, packages: &[Package])
    ensures
        final(v)@ == old(v)@ + package_lines(packages_view(packages@)),
{
    let ghost start = old(v)@;
    let mut i: usize = 0;
    proof {
        assert(packages_view(packages@).take(0) =~= Seq::<PackageView>::empty());
        assert(v@ =~= start + package_lines(packages_view(packages@).take(0)));
    }
    while i < packages.len()
        invariant
            i <= packages@.len(),
            v@ == start + package_lines(packages_view(packages@).take(i as int)),
        decreases packages.len() - i,
    {
        let text = str_to_chars(packages[i].to_string().as_str());
        let ghost mid = v@;
        let mut k: usize = 0;
        while k < text.len()
            invariant
                k <= text@.len(),
                v@ == mid + text@.take(k as int),
            decreases text.len() - k,
        {
            v.push(text[k]);
            k = k + 1;
            assert(v@ =~= mid + text@.take(k as int));
        }
        v.push('\n');
        proof {
            let pv = packages_view(packages@);
            assert(text@.take(text@.len() as int) =~= text@);
            assert(pv.take(i + 1).drop_last() =~= pv.take(i as int));
            assert(pv.take(i + 1).last() == packages@[i as int]@);
            assert(v@ =~= start + package_lines(pv.take(i + 1)));
        }
        i = i + 1;
    }
    proof {
        assert(packages_view(packages@).take(packages@.len() as int) =~= packages_view(packages@));
    }
}

/// The position right after the newline that ends the line holding the
/// first `section_header` in the text, counted in characters.
pub fn find_first_package_line_in_section(group_file_content: &str, section_header: &str) -> (r: Result<usize, SectionEditError>)
    ensures
        match r {
            Ok(i) => first_package_line(group_file_content@, section_header@) == Some(i as int),
            Err(e) => first_package_line(group_file_content@, section_header@) is None && (e
                == SectionEditError::HeaderNotFound <==> find_sub(group_file_content@, section_header@, 0) < 0),
        },
{
    let c = str_to_chars(group_file_content);
    let h = str_to_chars(section_header);
    let start = match find_sub_chars(c.as_slice(), h.as_slice()) {
        Some(i) => i,
        None => return Err(SectionEditError::HeaderNotFound),
    };
    proof {
        lemma_find_sub_bounds(c@, h@, 0);
    }
    let nl = find_char_from(c.as_slice(), '\n', start);
    if nl >= c.len() {
        return Err(SectionEditError::NoNewlineAfterHeader);
    }
    Ok(nl + 1)
}

pub proof fn lemma_find_sub_bounds(s: Seq<char>, pat: Seq<char>, from: int)
    ensures
        find_sub(s, pat, from) == -1 || (from <= find_sub(s, pat, from) && occurs_at(s, pat, find_sub(s, pat, from))),
    decreases s.len() + 1 - from,
{
    if !(from < 0 || from + pat.len() > s.len()) && !occurs_at(s, pat, from) {
        lemma_find_sub_bounds(s, pat, from + 1);
    }
}

/// Write the lines for `packages` right after the line holding the first
/// `section_header` in the text.
pub fn write_packages_to_existing_section(
    group_file_content: &mut String,
    section_header: &str,
    packages: &[Package],
) -> (r: Result<(), SectionEditError>)
    ensures
        match first_package_line(old(group_file_content)@, section_header@) {
            Some(i) => r is Ok && final(group_file_content)@ == old(group_file_content)@.take(i)
                + package_lines(packages_view(packages@)) + old(group_file_content)@.skip(i),
            None => r is Err && final(group_file_content)@ == old(group_file_content)@,
        },
{
    let idx = find_first_package_line_in_section(group_file_content.as_str(), section_header)?;
    let c = str_to_chars(group_file_content.as_str());
    let mut v = copy_range(c.as_slice(), 0, idx);
    push_package_lines(&mut v, packages);
    let ghost mid = v@;
    let mut k = idx;
    while k < c.len()
        invariant
            idx <= k <= c@.len(),
            v@ == mid + c@.subrange(idx as int, k as int),
        decreases c.len() - k,
    {
        v.push(c[k]);
        k = k + 1;
        assert(v@ =~= mid + c@.subrange(idx as int, k as int));
    }
    proof {
        assert(c@.subrange(idx as int, c@.len() as int) =~= c@.skip(idx as int));
        assert(c@.subrange(0, idx as int) =~= c@.take(idx as int));
    }
    *group_file_content = chars_to_string(v.as_slice());
    Ok(())
}

/// Append a new section: an empty line, the header line, and the lines for
/// `packages`.
pub fn add_new_section_with_packages(group_file_content: &mut String, section_header: &str, packages: &[Package])
    ensures
        final(group_file_content)@ == old(group_file_content)@ + seq!['\n'] + section_header@ + seq!['\n']
            + package_lines(packages_view(packages@)),
{
    let mut v = str_to_chars(group_file_content.as_str());
    v.push('\n');
    let h = str_to_chars(section_header);
    let ghost mid = v@;
    let mut k: usize = 0;
    while k < h.len()
        invariant
            k <= h@.len(),
            v@ == mid + h@.take(k as int),
        decreases h.len() - k,
    {
        v.push(h[k]);
        k = k + 1;
        assert(v@ =~= mid + h@.take(k as int));
    }
    v.push('\n');
    proof {
        assert(h@.take(h@.len() as int) =~= h@);
    }
    push_package_lines(&mut v, packages);
    *group_file_content = chars_to_string(v.as_slice());
}

/// The text of a group file once `packages` are added to it under
/// `section_header`.
pub open spec fn content_with_packages(content: Seq<char>, header: Seq<char>, ps: Seq<PackageView>) -> Option<Seq<char>> {
    if find_sub(content, header, 0) >= 0 {
        match first_package_line(content, header) {
            Some(i) => Some(content.take(i) + package_lines(ps) + content.skip(i)),
            None => None,
        }
    } else {
        Some(content + seq!['\n'] + header + seq!['\n'] + package_lines(ps))
    }
}

impl Group {
    /// The new text of this group's file, whose current text is `content`,
    /// once `packages` are added under `section_header`: right after the
    /// header line where the header occurs, else in a new section at the
    /// end. The file itself is read and written by the caller.
    pub fn save_packages(&self, content: &str, section_header: &str, packages: &[Package]) -> (r: Result<String, SectionEditError>)
        ensures
            match content_with_packages(content@, section_header@, packages_view(packages@)) {
                Some(c) => r matches Ok(s) && s@ == c,
                None => r == Err::<String, SectionEditError>(SectionEditError::NoNewlineAfterHeader),
            },
    {
        let mut text = chars_to_string(str_to_chars(content).as_slice());
        let c = str_to_chars(content);
        let h = str_to_chars(section_header);
        match find_sub_chars(c.as_slice(), h.as_slice()) {
            Some(_) => {
                let res = write_packages_to_existing_section(&mut text, section_header, packages);
                match res {
                    Ok(()) => Ok(text),
                    Err(_) => Err(SectionEditError::NoNewlineAfterHeader),
                }
            },
            None => {
                add_new_section_with_packages(&mut text, section_header, packages);
                Ok(text)
            },
        }
    }
}

} // verus!

verus! {

/// A group seen as its name, its sections and its path.
pub type GroupView = (Seq<char>, Seq<SectionView>, Seq<char>);

impl View for Group {
    type V = GroupView;

    open spec fn view(&self) -> GroupView {
        (self.name@, sections_view(self.sections@), self.path@)
    }
}

/// The groups of a sequence, each seen as its view.
pub open spec fn groups_view(v: Seq<Group>) -> Seq<GroupView> {
    v.map_values(|g: Group| g@)
}

/// Whether `gs` holds a group named `name`.
pub open spec fn has_group(gs: Seq<GroupView>, name: Seq<char>) -> bool {
    exists|i: int| 0 <= i < gs.len() && gs[i].0 == name
}

/// The group read from the file at `path` with text `content`.
pub open spec fn group_of_file(dir: Seq<char>, path: Seq<char>, content: Seq<char>) -> GroupView {
    (group_name(path, dir), parse_sections(content), path)
}

/// The groups of the files (path and text each), one per name: a later
/// group whose name is already taken is dropped.
pub open spec fn groups_of_files(dir: Seq<char>, files: Seq<(Seq<char>, Seq<char>)>) -> Seq<GroupView>
    decreases files.len(),
{
    if files.len() == 0 {
        seq![]
    } else {
        let prev = groups_of_files(dir, files.drop_last());
        let g = group_of_file(dir, files.last().0, files.last().1);
        if has_group(prev, g.0) {
            prev
        } else {
            prev.push(g)
        }
    }
}

/// No two groups share a name.
pub open spec fn distinct_groups(v: Seq<GroupView>) -> bool {
    forall|i: int, j: int| 0 <= i < j < v.len() ==> v[i].0 != v[j].0
}

/// The paths and texts of files, seen as character sequences.
pub open spec fn files_view(files: Seq<(String, String)>) -> Seq<(Seq<char>, Seq<char>)> {
    files.map_values(|f: (String, String)| (f.0@, f.1@))
}

/// Whether the groups hold one named `name`.
pub fn contains_group(v: &Vec<Group>, name: &String) -> (r: bool)
    ensures
        r == has_group(groups_view(v@), name@),
{
    let mut i: usize = 0;
    while i < v.len()
        invariant
            i <= v@.len(),
            forall|j: int| 0 <= j < i ==> v@[j].name@ != name@,
        decreases v.len() - i,
    {
        if crate::text::str_eq(v[i].name.as_str(), name.as_str()) {
            proof {
                assert(groups_view(v@)[i as int].0 == v@[i as int].name@);
            }
            return true;
        }
        i = i + 1;
    }
    proof {
        assert forall|j: int| 0 <= j < v@.len() implies groups_view(v@)[j].0 != name@ by {
            assert(groups_view(v@)[j] == v@[j]@);
        }
    }
    false
}

impl Group {
    /// The groups of the files found under `group_dir`, given as path and
    /// text each; each name once, the first file of a name winning. The
    /// directory is walked, and the files read, by the caller.
    pub fn load_from_dir(group_dir: &str, files: &Vec<(String, String)>) -> (r: Vec<Group>)
        requires
            forall|i: int| 0 <= i < files@.len() ==> valid_group_path(#[trigger] files@[i].0@, group_dir@),
        ensures
            groups_view(r@) == groups_of_files(group_dir@, files_view(files@)),
            distinct_groups(groups_view(r@)),
    {
        let ghost fv = files_view(files@);
        let mut out: Vec<Group> = Vec::new();
        let mut i: usize = 0;
        proof {
            assert(fv.take(0) =~= Seq::<(Seq<char>, Seq<char>)>::empty());
            assert(groups_view(out@) =~= Seq::<GroupView>::empty());
        }
        while i < files.len()
            invariant
                i <= files@.len(),
                fv == files_view(files@),
                forall|k: int| 0 <= k < files@.len() ==> valid_group_path(#[trigger] files@[k].0@, group_dir@),
                groups_view(out@) == groups_of_files(group_dir@, fv.take(i as int)),
                distinct_groups(groups_view(out@)),
            decreases files.len() - i,
        {
            proof {
                assert(fv.take(i + 1).drop_last() =~= fv.take(i as int));
                assert(fv.take(i + 1).last() == (files@[i as int].0@, files@[i as int].1@));
            }
            let g = Group::try_from(files[i].0.as_str(), group_dir, files[i].1.as_str());
            if !contains_group(&out, &g.name) {
                let ghost before = groups_view(out@);
                out.push(g);
                proof {
                    assert(groups_view(out@) =~= before.push(g@));
                    assert forall|a: int, b: int| 0 <= a < b < groups_view(out@).len() implies groups_view(out@)[a].0
                        != groups_view(out@)[b].0 by {
                        if b == before.len() {
                            assert(groups_view(out@)[a] == before[a]);
                        } else {
                            assert(groups_view(out@)[a] == before[a]);
                            assert(groups_view(out@)[b] == before[b]);
                        }
                    }
                }
            }
            i = i + 1;
        }
        proof {
            assert(fv.take(files@.len() as int) =~= fv);
        }
        out
    }
}

/// Index of the first group named `name`, if any.
pub open spec fn group_index(gs: Seq<GroupView>, name: Seq<char>) -> int
    decreases gs.len(),
{
    if gs.len() == 0 {
        -1
    } else {
        let prev = group_index(gs.drop_last(), name);
        if prev >= 0 {
            prev
        } else if gs.last().0 == name {
            gs.len() - 1
        } else {
            -1
        }
    }
}

/// Index of the first name that no group carries, or `-1`.
pub open spec fn first_missing_name(names: Seq<Seq<char>>, gs: Seq<GroupView>) -> int
    decreases names.len(),
{
    if names.len() == 0 {
        -1
    } else {
        let prev = first_missing_name(names.drop_last(), gs);
        if prev >= 0 {
            prev
        } else if group_index(gs, names.last()) < 0 {
            names.len() - 1
        } else {
            -1
        }
    }
}

pub proof fn lemma_group_index(gs: Seq<GroupView>, name: Seq<char>)
    ensures
        -1 <= group_index(gs, name) < gs.len(),
        group_index(gs, name) >= 0 ==> gs[group_index(gs, name)].0 == name,
        group_index(gs, name) < 0 <==> !has_group(gs, name),
    decreases gs.len(),
{
    if gs.len() > 0 {
        lemma_group_index(gs.drop_last(), name);
        if group_index(gs.drop_last(), name) >= 0 {
            assert(gs[group_index(gs, name)] == gs.drop_last()[group_index(gs, name)]);
        } else if gs.last().0 != name {
            assert forall|i: int| 0 <= i < gs.len() implies gs[i].0 != name by {
                if i < gs.len() - 1 {
                    assert(gs[i] == gs.drop_last()[i]);
                }
            }
        }
        if has_group(gs.drop_last(), name) {
            let i = choose|i: int| 0 <= i < gs.drop_last().len() && gs.drop_last()[i].0 == name;
            assert(gs[i] == gs.drop_last()[i]);
        }
    }
}

/// The index of the group named `name`, if any.
pub fn find_group_index(groups: &Vec<Group>, name: &String) -> (r: Option<usize>)
    ensures
        match r {
            Some(i) => i == group_index(groups_view(groups@), name@),
            None => group_index(groups_view(groups@), name@) == -1,
        },
{
    let ghost gv = groups_view(groups@);
    let mut i: usize = 0;
    proof {
        assert(gv.take(0) =~= Seq::<GroupView>::empty());
    }
    while i < groups.len()
        invariant
            i <= groups@.len(),
            gv == groups_view(groups@),
            group_index(gv.take(i as int), name@) == -1,
        decreases groups.len() - i,
    {
        proof {
            assert(gv.take(i + 1).drop_last() =~= gv.take(i as int));
            assert(gv.take(i + 1).last() == groups@[i as int]@);
        }
        if crate::text::str_eq(groups[i].name.as_str(), name.as_str()) {
            proof {
                lemma_group_index_prefix(gv, name@, i + 1);
            }
            return Some(i);
        }
        i = i + 1;
    }
    proof {
        assert(gv.take(gv.len() as int) =~= gv);
    }
    None
}

pub proof fn lemma_group_index_prefix(gs: Seq<GroupView>, name: Seq<char>, k: int)
    requires
        0 <= k <= gs.len(),
        group_index(gs.take(k), name) >= 0,
    ensures
        group_index(gs, name) == group_index(gs.take(k), name),
    decreases gs.len() - k,
{
    if k < gs.len() {
        assert(gs.take(k + 1).drop_last() =~= gs.take(k));
        lemma_group_index_prefix(gs, name, k + 1);
    } else {
        assert(gs.take(k) =~= gs);
    }
}

/// For each of `names`, the group of that name, in the order of the names.
/// Fails with the first name that no group carries.
pub fn find_groups_by_name<'a>(names: &Vec<String>, groups: &'a Vec<Group>) -> (r: Result<Vec<&'a Group>, crate::errors::Error>)
    ensures
        ({
            let nv = names@.map_values(|n: String| n@);
            let gv = groups_view(groups@);
            let m = first_missing_name(nv, gv);
            match r {
                Ok(found) => m == -1 && found@.len() == names@.len() && forall|i: int|
                    0 <= i < found@.len() ==> *found@[i] == groups@[group_index(gv, nv[i])],
                Err(e) => m >= 0 && e == crate::errors::Error::GroupFileNotFound(names@[m]),
            }
        }),
{
    let ghost nv = names@.map_values(|n: String| n@);
    let ghost gv = groups_view(groups@);
    let mut result: Vec<&'a Group> = Vec::new();
    let mut i: usize = 0;
    proof {
        assert(nv.take(0) =~= Seq::<Seq<char>>::empty());
    }
    while i < names.len()
        invariant
            i <= names@.len(),
            nv == names@.map_values(|n: String| n@),
            gv == groups_view(groups@),
            first_missing_name(nv.take(i as int), gv) == -1,
            result@.len() == i,
            forall|k: int| 0 <= k < i ==> *result@[k] == groups@[group_index(gv, nv[k])],
        decreases names.len() - i,
    {
        proof {
            assert(nv.take(i + 1).drop_last() =~= nv.take(i as int));
            assert(nv.take(i + 1).last() == names@[i as int]@);
            lemma_group_index(gv, nv[i as int]);
        }
        match find_group_index(groups, &names[i]) {
            Some(k) => {
                result.push(&groups[k]);
            },
            None => {
                proof {
                    lemma_first_missing_prefix(nv, gv, i + 1);
                }
                return Err(crate::errors::Error::GroupFileNotFound(names[i].clone()));
            },
        }
        i = i + 1;
    }
    proof {
        assert(nv.take(nv.len() as int) =~= nv);
    }
    Ok(result)
}

pub proof fn lemma_first_missing_prefix(names: Seq<Seq<char>>, gs: Seq<GroupView>, k: int)
    requires
        0 <= k <= names.len(),
        first_missing_name(names.take(k), gs) >= 0,
    ensures
        first_missing_name(names, gs) == first_missing_name(names.take(k), gs),
    decreases names.len() - k,
{
    if k < names.len() {
        assert(names.take(k + 1).drop_last() =~= names.take(k));
        lemma_first_missing_prefix(names, gs, k + 1);
    } else {
        assert(names.take(k) =~= names);
    }
}

} // verus!

verus! {

/// Reading a text whose lines are `a`, a header line `x`, then lines `q`
/// without headers: the sections of `a` with the section of `x` added.
pub proof fn lemma_sections_from_last(a: Seq<Seq<char>>, x: Seq<char>, q: Seq<Seq<char>>, pos: int, acc: Seq<SectionView>)
    requires
        0 <= pos <= a.len(),
        crate::section::is_header(x),
        forall|k: int| 0 <= k < q.len() ==> !crate::section::is_header(#[trigger] q[k]),
    ensures
        sections_from(a + seq![x] + q, pos, acc) == insert_section(
            sections_from(a, pos, acc),
            (crate::section::header_name(x), crate::package::packages_of(q)),
        ),
    decreases a.len() - pos,
{
    let ls = a + seq![x] + q;
    let n = a.len() as int;
    assert(ls[n] == x);
    assert forall|k: int| n < k < ls.len() implies !crate::section::is_header(#[trigger] ls[k]) by {
        assert(ls[k] == q[k - n - 1]);
    }
    crate::section::lemma_next_header_at(ls, n + 1, ls.len() as int);
    assert(ls.subrange(n + 1, ls.len() as int) =~= q);
    lemma_next_header_bounds(ls, pos);
    lemma_next_header_bounds(a, pos);
    let xs = (crate::section::header_name(x), crate::package::packages_of(q));
    assert(section_at(ls, n) == (Some(xs), ls.len() as int)) by {
        crate::section::lemma_next_header_at(ls, n, n);
    }
    assert(sections_from(ls, ls.len() as int, insert_section(acc, xs)) == insert_section(acc, xs));
    assert(sections_from(ls, n, acc) == insert_section(acc, xs));
    assert(sections_from(a, n, acc) == acc);
    if pos < n {
        let h = next_header(a, pos);
        if h >= n {
            assert forall|k: int| pos <= k < n implies !crate::section::is_header(#[trigger] ls[k]) by {
                assert(ls[k] == a[k]);
            }
            crate::section::lemma_next_header_at(ls, pos, n);
            assert(section_at(a, pos) == (None::<SectionView>, n));
            assert(sections_from(a, pos, acc) == sections_from(a, n, acc));
            assert(section_at(ls, pos) == section_at(ls, n));
            assert(sections_from(ls, pos, acc) == sections_from(ls, ls.len() as int, insert_section(acc, xs)));
        } else {
            assert(a[h] == ls[h]);
            assert forall|k: int| pos <= k < h implies !crate::section::is_header(#[trigger] ls[k]) by {
                assert(ls[k] == a[k]);
            }
            crate::section::lemma_next_header_at(ls, pos, h);
            lemma_next_header_bounds(a, h + 1);
            let e = next_header(a, h + 1);
            assert forall|k: int| h + 1 <= k < e implies !crate::section::is_header(#[trigger] ls[k]) by {
                assert(ls[k] == a[k]);
            }
            if e < n {
                assert(a[e] == ls[e]);
            }
            crate::section::lemma_next_header_at(ls, h + 1, e);
            assert(ls.subrange(h + 1, e) =~= a.subrange(h + 1, e));
            let sv = (crate::section::header_name(a[h]), crate::package::packages_of(a.subrange(h + 1, e)));
            assert(section_at(ls, pos) == (Some(sv), e));
            assert(section_at(a, pos) == (Some(sv), e));
            assert(sections_from(ls, pos, acc) == sections_from(ls, e, insert_section(acc, sv)));
            assert(sections_from(a, pos, acc) == sections_from(a, e, insert_section(acc, sv)));
            lemma_sections_from_last(a, x, q, e, insert_section(acc, sv));
        }
    }
}

/// Every section read from the lines `ls` from `pos` on is one of `acc`
/// or is named by a header line of `ls`.
pub proof fn lemma_sections_from_names(ls: Seq<Seq<char>>, pos: int, acc: Seq<SectionView>, name: Seq<char>)
    requires
        0 <= pos,
        has_section(sections_from(ls, pos, acc), name),
    ensures
        has_section(acc, name) || exists|k: int|
            pos <= k < ls.len() && crate::section::is_header(ls[k]) && #[trigger] crate::section::header_name(ls[k]) == name,
    decreases ls.len() - pos,
{
    if pos < ls.len() {
        lemma_next_header_bounds(ls, pos);
        let h = next_header(ls, pos);
        if h < ls.len() {
            lemma_next_header_bounds(ls, h + 1);
            let e = next_header(ls, h + 1);
            let sv = (crate::section::header_name(ls[h]), crate::package::packages_of(ls.subrange(h + 1, e)));
            assert(section_at(ls, pos) == (Some(sv), e));
            let acc2 = insert_section(acc, sv);
            assert(sections_from(ls, pos, acc) == sections_from(ls, e, acc2));
            lemma_sections_from_names(ls, e, acc2, name);
            if has_section(acc2, name) && !has_section(acc, name) {
                let i = choose|i: int| 0 <= i < acc2.len() && acc2[i].0 == name;
                if i < acc.len() {
                    assert(acc2[i] == acc[i]);
                }
                assert(crate::section::header_name(ls[h]) == name);
            }
        } else {
            assert(section_at(ls, pos) == (None::<SectionView>, ls.len() as int));
            assert(sections_from(ls, pos, acc) == sections_from(ls, ls.len() as int, acc));
            assert(sections_from(ls, ls.len() as int, acc) == acc);
        }
    } else {
        assert(sections_from(ls, pos, acc) == acc);
    }
}

/// The lines written for packages are read back one per package.
pub proof fn lemma_package_lines_read(ps: Seq<PackageView>)
    requires
        forall|i: int| 0 <= i < ps.len() ==> listable_package(#[trigger] ps[i]),
    ensures
        lines_of(package_lines(ps)) == ps.map_values(|p: PackageView| package_display(p)),
    decreases ps.len(),
{
    if ps.len() == 0 {
        assert(lines_of(Seq::<char>::empty()) =~= Seq::<Seq<char>>::empty());
        assert(ps.map_values(|p: PackageView| package_display(p)) =~= Seq::<Seq<char>>::empty());
    } else {
        let prev = ps.drop_last();
        assert forall|i: int| 0 <= i < prev.len() implies listable_package(#[trigger] prev[i]) by {
            assert(prev[i] == ps[i]);
        }
        lemma_package_lines_read(prev);
        let d = package_display(ps.last());
        assert(listable_package(ps[ps.len() - 1]));
        let a = package_lines(prev);
        if a.len() > 0 {
            lemma_package_lines_last(prev);
        }
        crate::text::lemma_lines_of_append(a, d + seq!['\n']);
        assert(package_lines(ps) == a + d + seq!['\n']);
        assert(a + d + seq!['\n'] =~= a + (d + seq!['\n']));
        crate::text::lemma_lines_of_line(d);
        assert(ps.map_values(|p: PackageView| package_display(p)) =~= prev.map_values(|p: PackageView| package_display(p)).push(d));
    }
}

pub proof fn lemma_package_lines_last(ps: Seq<PackageView>)
    requires
        package_lines(ps).len() > 0,
    ensures
        package_lines(ps).last() == '\n',
{
}

/// A package that a group file can hold on a line of its own and read
/// back: written as it reads, with no line break, and not starting like a
/// header.
pub open spec fn listable_package(p: PackageView) -> bool {
    &&& crate::package::writable_package(p)
    &&& forall|j: int| 0 <= j < package_display(p).len() ==> package_display(p)[j] != '\n'
    &&& package_display(p)[0] != '['
}

/// Reading the lines of packages gives each package back.
pub proof fn lemma_packages_of_displays(ps: Seq<PackageView>)
    requires
        forall|i: int| 0 <= i < ps.len() ==> crate::package::writable_package(#[trigger] ps[i]),
    ensures
        forall|i: int| 0 <= i < ps.len() ==> crate::package::holds_package(
            crate::package::packages_of(ps.map_values(|p: PackageView| package_display(p))),
            #[trigger] ps[i],
        ),
    decreases ps.len(),
{
    if ps.len() > 0 {
        let prev = ps.drop_last();
        assert forall|i: int| 0 <= i < prev.len() implies crate::package::writable_package(#[trigger] prev[i]) by {
            assert(prev[i] == ps[i]);
        }
        lemma_packages_of_displays(prev);
        let lines = ps.map_values(|p: PackageView| package_display(p));
        let plines = prev.map_values(|p: PackageView| package_display(p));
        assert(lines.drop_last() =~= plines);
        assert(writable_package_last(ps));
        crate::package::lemma_display_roundtrip(ps.last());
        assert(lines.last() == package_display(ps.last()));
        crate::backend::lemma_set_insert_holds(crate::package::packages_of(plines), ps.last());
        assert forall|i: int| 0 <= i < ps.len() implies crate::package::holds_package(
            crate::package::packages_of(lines),
            #[trigger] ps[i],
        ) by {
            if i < ps.len() - 1 {
                assert(prev[i] == ps[i]);
            }
        }
    }
}

spec fn writable_package_last(ps: Seq<PackageView>) -> bool {
    ps.len() > 0 ==> crate::package::writable_package(ps[ps.len() - 1])
}

/// A section name that a header line `[name]` gives back: no line break,
/// not starting with `[`, not ending with `]`.
pub open spec fn plain_section_name(s: Seq<char>) -> bool {
    &&& forall|j: int| 0 <= j < s.len() ==> s[j] != '\n'
    &&& (s.len() > 0 ==> s[0] != '[' && s.last() != ']')
}

/// Some section of `ss` is named `name` and holds every package of `ps`.
pub open spec fn section_holding(ss: Seq<SectionView>, name: Seq<char>, ps: Seq<PackageView>) -> bool {
    exists|j: int|
        0 <= j < ss.len() && (#[trigger] ss[j]).0 == name && forall|i: int|
            0 <= i < ps.len() ==> crate::package::holds_package(ss[j].1, #[trigger] ps[i])
}

/// Adding packages under a header `[name]` to a group file whose text
/// (empty, or ending in a newline) holds neither that header nor a header
/// line of that name: the text read back has a section of that name that
/// holds every package added.
pub proof fn lemma_added_section_read_back(c: Seq<char>, s: Seq<char>, ps: Seq<PackageView>)
    requires
        c.len() == 0 || c.last() == '\n',
        find_sub(c, seq!['['] + s + seq![']'], 0) < 0,
        forall|k: int|
            0 <= k < lines_of(c).len() && crate::section::is_header(lines_of(c)[k]) ==> #[trigger] crate::section::header_name(
                lines_of(c)[k],
            ) != s,
        plain_section_name(s),
        forall|i: int| 0 <= i < ps.len() ==> listable_package(#[trigger] ps[i]),
    ensures
        content_with_packages(c, seq!['['] + s + seq![']'], ps) matches Some(c2) && section_holding(parse_sections(c2), s, ps),
{
    let h = seq!['['] + s + seq![']'];
    let pl = package_lines(ps);
    let c2 = c + seq!['\n'] + h + seq!['\n'] + pl;
    assert(content_with_packages(c, h, ps) == Some(c2));
    // the lines of the new text
    let tail = seq!['\n'] + (h + seq!['\n'] + pl);
    assert(c2 =~= c + tail);
    crate::text::lemma_lines_of_append(c, tail);
    crate::text::lemma_lines_of_append(seq!['\n'], h + seq!['\n'] + pl);
    assert(tail =~= seq!['\n'] + (h + seq!['\n'] + pl));
    crate::text::lemma_lines_of_line(Seq::<char>::empty());
    assert(seq!['\n'] =~= Seq::<char>::empty() + seq!['\n']);
    assert forall|j: int| 0 <= j < h.len() implies h[j] != '\n' by {
        if 0 < j < h.len() - 1 {
            assert(h[j] == s[j - 1]);
        }
    }
    crate::text::lemma_lines_of_append(h + seq!['\n'], pl);
    crate::text::lemma_lines_of_line(h);
    lemma_package_lines_read(ps);
    let q = ps.map_values(|p: PackageView| package_display(p));
    let a = lines_of(c) + seq![Seq::<char>::empty()];
    assert(lines_of(c2) =~= a + seq![h] + q);
    // the section of the new header
    assert forall|k: int| 0 <= k < q.len() implies !crate::section::is_header(#[trigger] q[k]) by {
        assert(listable_package(ps[k]));
    }
    assert(crate::text::trim(h) == h) by {
        assert(!crate::text::is_ws(h[0]));
        assert(h.last() == ']');
    }
    assert(crate::text::strip_leading(h, '[') == s + seq![']']) by {
        assert(h.drop_first() =~= s + seq![']']);
        assert(h[0] == '[');
        assert(crate::text::strip_leading(h, '[') == crate::text::strip_leading(h.drop_first(), '['));
        if s.len() > 0 {
            assert((s + seq![']'])[0] == s[0]);
        } else {
            assert((s + seq![']'])[0] == ']');
        }
        assert(crate::text::strip_leading(s + seq![']'], '[') == s + seq![']']);
    }
    assert(crate::text::strip_trailing(s + seq![']'], ']') == s) by {
        assert((s + seq![']']).drop_last() =~= s);
        assert(crate::text::strip_trailing(s + seq![']'], ']') == crate::text::strip_trailing(s, ']'));
        assert(crate::text::strip_trailing(s, ']') == s);
    }
    assert(crate::section::header_name(h) == s);
    lemma_sections_from_last(a, h, q, 0, seq![]);
    let before = sections_from(a, 0, seq![]);
    if has_section(before, s) {
        lemma_sections_from_names(a, 0, seq![], s);
        let k = choose|k: int| 0 <= k < a.len() && crate::section::is_header(a[k]) && #[trigger] crate::section::header_name(a[k]) == s;
        assert(k < lines_of(c).len());
        assert(a[k] == lines_of(c)[k]);
    }
    let after = parse_sections(c2);
    assert(after == before.push((s, crate::package::packages_of(q))));
    assert forall|i: int| 0 <= i < ps.len() implies crate::package::writable_package(#[trigger] ps[i]) by {
        assert(listable_package(ps[i]));
    }
    lemma_packages_of_displays(ps);
    let j = before.len() as int;
    assert(after[j] == (s, crate::package::packages_of(q)));
    assert forall|i: int| 0 <= i < ps.len() implies crate::package::holds_package(after[j].1, #[trigger] ps[i]) by {
        assert(crate::package::holds_package(crate::package::packages_of(q), ps[i]));
    }
    assert(0 <= j < after.len() && after[j].0 == s);
    assert(section_holding(after, s, ps));
}

} // verus!

verus! {

/// Reading lines `a`, a header line `x`, then lines `b`: the sections of
/// `a` are read first, then reading goes on at `x`.
pub proof fn lemma_sections_from_split(a: Seq<Seq<char>>, x: Seq<char>, b: Seq<Seq<char>>, pos: int, acc: Seq<SectionView>)
    requires
        0 <= pos <= a.len(),
        crate::section::is_header(x),
    ensures
        sections_from(a + seq![x] + b, pos, acc) == sections_from(a + seq![x] + b, a.len() as int, sections_from(a, pos, acc)),
    decreases a.len() - pos,
{
    let ls = a + seq![x] + b;
    let n = a.len() as int;
    assert(ls[n] == x);
    lemma_next_header_bounds(ls, pos);
    lemma_next_header_bounds(a, pos);
    assert(sections_from(a, n, acc) == acc);
    if pos < n {
        let h = next_header(a, pos);
        if h >= n {
            assert forall|k: int| pos <= k < n implies !crate::section::is_header(#[trigger] ls[k]) by {
                assert(ls[k] == a[k]);
            }
            crate::section::lemma_next_header_at(ls, pos, n);
            assert(section_at(a, pos) == (None::<SectionView>, n));
            assert(sections_from(a, pos, acc) == sections_from(a, n, acc));
            crate::section::lemma_next_header_at(ls, n, n);
            lemma_next_header_bounds(ls, n + 1);
            let e2 = next_header(ls, n + 1);
            let sv2 = (crate::section::header_name(ls[n]), crate::package::packages_of(ls.subrange(n + 1, e2)));
            assert(section_at(ls, n) == (Some(sv2), e2));
            assert(section_at(ls, pos) == (Some(sv2), e2));
            assert(sections_from(ls, pos, acc) == sections_from(ls, e2, insert_section(acc, sv2)));
            assert(sections_from(ls, n, acc) == sections_from(ls, e2, insert_section(acc, sv2)));
        } else {
            assert(a[h] == ls[h]);
            assert forall|k: int| pos <= k < h implies !crate::section::is_header(#[trigger] ls[k]) by {
                assert(ls[k] == a[k]);
            }
            crate::section::lemma_next_header_at(ls, pos, h);
            lemma_next_header_bounds(a, h + 1);
            let e = next_header(a, h + 1);
            assert forall|k: int| h + 1 <= k < e implies !crate::section::is_header(#[trigger] ls[k]) by {
                assert(ls[k] == a[k]);
            }
            if e < n {
                assert(a[e] == ls[e]);
            }
            crate::section::lemma_next_header_at(ls, h + 1, e);
            assert(ls.subrange(h + 1, e) =~= a.subrange(h + 1, e));
            let sv = (crate::section::header_name(a[h]), crate::package::packages_of(a.subrange(h + 1, e)));
            assert(section_at(ls, pos) == (Some(sv), e));
            assert(section_at(a, pos) == (Some(sv), e));
            assert(sections_from(ls, pos, acc) == sections_from(ls, e, insert_section(acc, sv)));
            assert(sections_from(a, pos, acc) == sections_from(a, e, insert_section(acc, sv)));
            lemma_sections_from_split(a, x, b, e, insert_section(acc, sv));
        }
    }
}

/// Reading more sections keeps the sections read so far.
pub proof fn lemma_sections_from_keeps(ls: Seq<Seq<char>>, pos: int, acc: Seq<SectionView>)
    requires
        0 <= pos,
    ensures
        sections_from(ls, pos, acc).len() >= acc.len(),
        forall|k: int| 0 <= k < acc.len() ==> #[trigger] sections_from(ls, pos, acc)[k] == acc[k],
    decreases ls.len() - pos,
{
    if pos < ls.len() {
        lemma_next_header_bounds(ls, pos);
        let h = next_header(ls, pos);
        if h < ls.len() {
            lemma_next_header_bounds(ls, h + 1);
            let e = next_header(ls, h + 1);
            let sv = (crate::section::header_name(ls[h]), crate::package::packages_of(ls.subrange(h + 1, e)));
            assert(section_at(ls, pos) == (Some(sv), e));
            let acc2 = insert_section(acc, sv);
            assert(sections_from(ls, pos, acc) == sections_from(ls, e, acc2));
            lemma_sections_from_keeps(ls, e, acc2);
            assert forall|k: int| 0 <= k < acc.len() implies #[trigger] sections_from(ls, pos, acc)[k] == acc[k] by {
                assert(acc2[k] == acc[k]);
            }
        } else {
            assert(section_at(ls, pos) == (None::<SectionView>, ls.len() as int));
            assert(sections_from(ls, pos, acc) == sections_from(ls, ls.len() as int, acc));
        }
    }
}

/// A package held by the packages of some lines is still held once more
/// lines follow.
pub proof fn lemma_packages_of_more(q: Seq<Seq<char>>, more: Seq<Seq<char>>, p: PackageView)
    requires
        crate::package::holds_package(crate::package::packages_of(q), p),
    ensures
        crate::package::holds_package(crate::package::packages_of(q + more), p),
    decreases more.len(),
{
    if more.len() == 0 {
        assert(q + more =~= q);
    } else {
        lemma_packages_of_more(q, more.drop_last(), p);
        assert((q + more).drop_last() =~= q + more.drop_last());
        assert((q + more).last() == more.last());
        match crate::package::parse_package(more.last()) {
            Some(x) => crate::backend::lemma_set_insert_holds(crate::package::packages_of(q + more.drop_last()), x),
            None => {},
        }
    }
}

/// Adding packages under a header `[name]` that stands on a line of its
/// own in a group file, where no header line before it names the same
/// section: the text read back has a section of that name that holds every
/// package added.
pub proof fn lemma_added_to_section_read_back(c: Seq<char>, s: Seq<char>, ps: Seq<PackageView>)
    requires
        ({
            let h = seq!['['] + s + seq![']'];
            let st = find_sub(c, h, 0);
            &&& st >= 0
            &&& (st == 0 || c[st - 1] == '\n')
            &&& st + h.len() < c.len() && c[st + h.len()] == '\n'
            &&& forall|k: int|
                0 <= k < lines_of(c.take(st)).len() && crate::section::is_header(lines_of(c.take(st))[k])
                    ==> #[trigger] crate::section::header_name(lines_of(c.take(st))[k]) != s
        }),
        plain_section_name(s),
        forall|i: int| 0 <= i < ps.len() ==> listable_package(#[trigger] ps[i]),
    ensures
        content_with_packages(c, seq!['['] + s + seq![']'], ps) matches Some(c2) && section_holding(parse_sections(c2), s, ps),
{
    let h = seq!['['] + s + seq![']'];
    let st = find_sub(c, h, 0);
    lemma_find_sub_bounds(c, h, 0);
    assert(occurs_at(c, h, st));
    assert(c.subrange(st, st + h.len()) == h);
    assert forall|j: int| 0 <= j < h.len() implies h[j] != '\n' by {
        if 0 < j < h.len() - 1 {
            assert(h[j] == s[j - 1]);
        }
    }
    // the line of the header ends right after it
    let cs = c.skip(st);
    assert forall|j: int| 0 <= j < h.len() implies cs[j] != '\n' by {
        assert(cs[j] == c[st + j]);
        assert(c[st + j] == c.subrange(st, st + h.len())[j]);
    }
    assert(cs[h.len() as int] == '\n');
    crate::text::lemma_find_char_at(cs, '\n', h.len() as int);
    let i = st + h.len() + 1;
    assert(first_package_line(c, h) == Some(i));
    let pl = package_lines(ps);
    let c2 = c.take(i) + pl + c.skip(i);
    assert(content_with_packages(c, h, ps) == Some(c2));
    // the lines of the new text
    let before = c.take(st);
    assert(c.take(i) =~= before + (h + seq!['\n'])) by {
        assert forall|j: int| 0 <= j < h.len() implies c.take(i)[st + j] == h[j] by {
            assert(c[st + j] == c.subrange(st, st + h.len())[j]);
        }
    }
    if before.len() > 0 {
        assert(before.last() == c[st - 1]);
    }
    crate::text::lemma_lines_of_append(before, h + seq!['\n']);
    crate::text::lemma_lines_of_line(h);
    let rest = c.skip(i);
    assert(c2 =~= c.take(i) + (pl + rest));
    crate::text::lemma_lines_of_append(c.take(i), pl + rest);
    if pl.len() > 0 {
        lemma_package_lines_last(ps);
    }
    crate::text::lemma_lines_of_append(pl, rest);
    lemma_package_lines_read(ps);
    let q = ps.map_values(|p: PackageView| package_display(p));
    let a = lines_of(before);
    let b = q + lines_of(rest);
    assert(lines_of(c2) =~= a + seq![h] + b);
    // the header's name
    assert(crate::text::trim(h) == h) by {
        assert(!crate::text::is_ws(h[0]));
        assert(h.last() == ']');
    }
    assert(crate::text::strip_leading(h, '[') == s + seq![']']) by {
        assert(h.drop_first() =~= s + seq![']']);
        assert(h[0] == '[');
        assert(crate::text::strip_leading(h, '[') == crate::text::strip_leading(h.drop_first(), '['));
        if s.len() > 0 {
            assert((s + seq![']'])[0] == s[0]);
        } else {
            assert((s + seq![']'])[0] == ']');
        }
        assert(crate::text::strip_leading(s + seq![']'], '[') == s + seq![']']);
    }
    assert(crate::text::strip_trailing(s + seq![']'], ']') == s) by {
        assert((s + seq![']']).drop_last() =~= s);
        assert(crate::text::strip_trailing(s + seq![']'], ']') == crate::text::strip_trailing(s, ']'));
        assert(crate::text::strip_trailing(s, ']') == s);
    }
    assert(crate::section::header_name(h) == s);
    // reading: the sections before the header, then the header's section
    let ls = a + seq![h] + b;
    let n = a.len() as int;
    lemma_sections_from_split(a, h, b, 0, seq![]);
    let acc = sections_from(a, 0, seq![]);
    if has_section(acc, s) {
        lemma_sections_from_names(a, 0, seq![], s);
        let k = choose|k: int| 0 <= k < a.len() && crate::section::is_header(a[k]) && #[trigger] crate::section::header_name(a[k]) == s;
    }
    assert(ls[n] == h);
    lemma_next_header_bounds(ls, n);
    crate::section::lemma_next_header_at(ls, n, n);
    lemma_next_header_bounds(ls, n + 1);
    let e = next_header(ls, n + 1);
    let body = ls.subrange(n + 1, e);
    let sv = (s, crate::package::packages_of(body));
    assert(section_at(ls, n) == (Some(sv), e));
    let acc2 = acc.push(sv);
    assert(insert_section(acc, sv) == acc2);
    assert(sections_from(ls, n, acc) == sections_from(ls, e, acc2));
    lemma_sections_from_keeps(ls, e, acc2);
    let after = parse_sections(c2);
    assert(after == sections_from(ls, e, acc2));
    let j = acc.len() as int;
    assert(after[j] == acc2[j]);
    // the header's section holds the packages
    assert forall|k: int| 0 <= k < q.len() implies !crate::section::is_header(#[trigger] q[k]) by {
        assert(listable_package(ps[k]));
    }
    assert forall|k: int| n + 1 <= k < n + 1 + q.len() implies !crate::section::is_header(#[trigger] ls[k]) by {
        assert(ls[k] == q[k - n - 1]);
    }
    assert(e >= n + 1 + q.len()) by {
        if e < n + 1 + q.len() {
            assert(crate::section::is_header(ls[e]));
        }
    }
    assert(body =~= q + body.skip(q.len() as int));
    assert forall|k: int| 0 <= k < ps.len() implies crate::package::writable_package(#[trigger] ps[k]) by {
        assert(listable_package(ps[k]));
    }
    lemma_packages_of_displays(ps);
    assert forall|k: int| 0 <= k < ps.len() implies crate::package::holds_package(after[j].1, #[trigger] ps[k]) by {
        lemma_packages_of_more(q, body.skip(q.len() as int), ps[k]);
    }
    assert(section_holding(after, s, ps));
}

} // verus!

verus! {

/// The lines that show a section's packages: a newline, then the package,
/// for each package.
pub open spec fn shown_packages(ps: Seq<PackageView>) -> Seq<char>
    decreases ps.len(),
{
    if ps.len() == 0 {
        seq![]
    } else {
        shown_packages(ps.drop_last()) + seq!['\n'] + package_display(ps.last())
    }
}

/// The text a section is shown as: its header, then its packages, one per
/// line.
pub open spec fn section_text(s: SectionView) -> Seq<char> {
    seq!['['] + s.0 + seq![']'] + shown_packages(s.1)
}

/// An order of the sections by name: every section once, names never
/// decreasing.
pub open spec fn name_order(ss: Seq<SectionView>, o: Seq<int>) -> bool {
    &&& o.to_multiset() == Seq::new(ss.len(), |i: int| i).to_multiset()
    &&& forall|i: int, j: int| 0 <= i < j < o.len() ==> !crate::order::seq_lt(ss[o[j]].0, ss[o[i]].0)
}

/// The sections in the order `o`, each as its text, separated by empty
/// lines.
pub open spec fn sections_text(ss: Seq<SectionView>, o: Seq<int>) -> Seq<char>
    decreases o.len(),
{
    if o.len() == 0 {
        seq![]
    } else if o.len() == 1 {
        section_text(ss[o[0]])
    } else {
        sections_text(ss, o.drop_last()) + "\n\n"@ + section_text(ss[o.last()])
    }
}

impl Section {
    /// The text the section is shown as.
    pub fn to_string(&self) -> (r: String)
        ensures
            r@ == section_text(self@),
    {
        let mut out: Vec<char> = Vec::new();
        push_section_text(&mut out, self);
        proof {
            assert(out@ =~= section_text(self@));
        }
        chars_to_string(out.as_slice())
    }
}

/// Append the text of section `s` to `out`.
fn push_section_text(out: &mut Vec<char>, s: &Section)
    ensures
        final(out)@ == old(out)@ + section_text(s@),
{
    let ghost start = out@;
    out.push('[');
    crate::text::push_str_chars(out, s.name.as_str());
    out.push(']');
    let ghost head = out@;
    let ghost pv = packages_view(s.packages@);
    let mut i: usize = 0;
    proof {
        assert(head =~= head + shown_packages(pv.take(0)));
    }
    while i < s.packages.len()
        invariant
            i <= s.packages@.len(),
            pv == packages_view(s.packages@),
            out@ == head + shown_packages(pv.take(i as int)),
        decreases s.packages.len() - i,
    {
        out.push('\n');
        let t = s.packages[i].to_string();
        crate::text::push_str_chars(out, t.as_str());
        proof {
            assert(pv.take(i + 1).drop_last() =~= pv.take(i as int));
            assert(pv.take(i + 1).last() == s.packages@[i as int]@);
            assert(out@ =~= head + shown_packages(pv.take(i + 1)));
        }
        i = i + 1;
    }
    proof {
        assert(pv.take(pv.len() as int) =~= pv);
        assert(out@ =~= start + section_text(s@));
    }
}

/// The sections by name: their indices, every section once, names never
/// decreasing.
pub fn section_order(sections: &Vec<Section>) -> (r: Vec<usize>)
    ensures
        name_order(sections_view(sections@), r@.map_values(|k: usize| k as int)),
        forall|k: int| 0 <= k < r@.len() ==> r@[k] < sections@.len(),
{
    let ghost ss = sections_view(sections@);
    let mut order: Vec<usize> = Vec::new();
    let mut i: usize = 0;
    proof {
        assert(order@.map_values(|k: usize| k as int) =~= Seq::<int>::empty());
        assert(Seq::new(0, |j: int| j) =~= Seq::<int>::empty());
    }
    while i < sections.len()
        invariant
            i <= sections@.len(),
            ss == sections_view(sections@),
            order@.len() == i,
            forall|k: int| 0 <= k < order@.len() ==> order@[k] < i,
            order@.map_values(|k: usize| k as int).to_multiset() == Seq::new(i as nat, |j: int| j).to_multiset(),
            forall|a: int, b: int|
                0 <= a < b < order@.len() ==> !crate::order::seq_lt(ss[order@[b] as int].0, ss[order@[a] as int].0),
        decreases sections.len() - i,
    {
        let name = str_to_chars(sections[i].name.as_str());
        let ghost ov = order@;
        let mut p: usize = 0;
        while p < order.len() && !crate::order::chars_lt(name.as_slice(), str_to_chars(sections[order[p]].name.as_str()).as_slice())
            invariant
                p <= order@.len(),
                ov == order@,
                i < sections@.len(),
                forall|k: int| 0 <= k < order@.len() ==> order@[k] < i,
                name@ == ss[i as int].0,
                ss == sections_view(sections@),
                forall|k: int| 0 <= k < p ==> !crate::order::seq_lt(ss[i as int].0, ss[ov[k] as int].0),
            decreases order.len() - p,
        {
            proof {
                assert(ss[order@[p as int] as int] == sections@[order@[p as int] as int]@);
            }
            p = p + 1;
        }
        proof {
            if p < order@.len() {
                assert(ss[ov[p as int] as int] == sections@[ov[p as int] as int]@);
                assert(crate::order::seq_lt(ss[i as int].0, ss[ov[p as int] as int].0));
            }
        }
        order.insert(p, i);
        proof {
            let nv = order@;
            assert(nv =~= ov.insert(p as int, i));
            assert forall|a: int, b: int| 0 <= a < b < nv.len() implies !crate::order::seq_lt(
                ss[nv[b] as int].0,
                ss[nv[a] as int].0,
            ) by {
                let x = ss[i as int].0;
                if b < p {
                    assert(nv[a] == ov[a] && nv[b] == ov[b]);
                } else if b == p {
                    assert(nv[b] == i && nv[a] == ov[a]);
                } else if a == p {
                    assert(nv[a] == i && nv[b] == ov[b - 1]);
                    let y = ss[ov[b - 1] as int].0;
                    if b - 1 > p {
                        let z = ss[ov[p as int] as int].0;
                        assert(!crate::order::seq_lt(y, z));
                        crate::order::lemma_seq_lt_total(z, y);
                        if z != y {
                            crate::order::lemma_seq_lt_transitive(x, z, y);
                        }
                    }
                    crate::order::lemma_seq_lt_asymmetric(x, y);
                } else if a < p {
                    assert(nv[a] == ov[a] && nv[b] == ov[b - 1]);
                } else {
                    assert(nv[a] == ov[a - 1] && nv[b] == ov[b - 1]);
                }
            }
            let om = ov.map_values(|k: usize| k as int);
            assert(nv.map_values(|k: usize| k as int) =~= om.insert(p as int, i as int));
            vstd::seq_lib::to_multiset_insert(om, p as int, i as int);
            assert(Seq::new((i + 1) as nat, |j: int| j) =~= Seq::new(i as nat, |j: int| j).push(i as int));
            vstd::seq_lib::to_multiset_build(Seq::new(i as nat, |j: int| j), i as int);
        }
        i = i + 1;
    }
    proof {
        let om = order@.map_values(|k: usize| k as int);
        assert forall|a: int, b: int| 0 <= a < b < om.len() implies !crate::order::seq_lt(ss[om[b]].0, ss[om[a]].0) by {}
    }
    order
}

impl Group {
    /// The text the group is shown as: its sections by name, separated by
    /// empty lines.
    pub fn to_string(&self) -> (r: String)
        ensures
            exists|o: Seq<int>| name_order(sections_view(self.sections@), o) && r@ == sections_text(sections_view(self.sections@), o),
    {
        let order = section_order(&self.sections);
        let ghost ss = sections_view(self.sections@);
        let ghost om = order@.map_values(|k: usize| k as int);
        proof {
            assert forall|k: int| 0 <= k < om.len() implies 0 <= #[trigger] om[k] < ss.len() by {
                assert(om[k] == order@[k] as int);
            }
        }
        let mut out: Vec<char> = Vec::new();
        let mut k: usize = 0;
        while k < order.len()
            invariant
                k <= order@.len(),
                om == order@.map_values(|k: usize| k as int),
                ss == sections_view(self.sections@),
                forall|m: int| 0 <= m < om.len() ==> 0 <= #[trigger] om[m] < ss.len(),
                out@ == sections_text(ss, om.take(k as int)),
            decreases order.len() - k,
        {
            let ghost before = out@;
            if k > 0 {
                crate::text::push_str_chars(&mut out, "\n\n");
            }
            proof {
                assert(0 <= om[k as int] < ss.len());
            }
            push_section_text(&mut out, &self.sections[order[k]]);
            proof {
                assert(ss[om[k as int]] == self.sections@[order@[k as int] as int]@);
                assert(om.take(k + 1).drop_last() =~= om.take(k as int));
                assert(om.take(k + 1).last() == om[k as int]);
                if k == 0 {
                    assert(om.take(1) =~= seq![om[0]]);
                    assert(out@ =~= sections_text(ss, om.take(1)));
                } else {
                    assert(out@ =~= sections_text(ss, om.take(k + 1)));
                }
            }
            k = k + 1;
        }
        proof {
            assert(om.take(om.len() as int) =~= om);
        }
        chars_to_string(out.as_slice())
    }
}

} // verus!
