//! The rustup backend: toolchains and components. A package of the
//! `rustup` section is `toolchain/<toolchain>` or
//! `component/<toolchain>/<component>`.

use vstd::prelude::*;
use crate::backend::{Switches, Text, add_groups, command, load_section, output_lines, push_switches, push_word, strings_view, words};
use crate::group::{Group, groups_view};
use crate::package::{Package, PackageView, distinct_packages, packages_view};
use crate::text::{chars_to_string, copy_range, find_char, find_char_from, lemma_find_char_bounds, lines_of, str_eq, str_to_chars};

verus! {

/// The rustup backend and its managed packages.
#[derive(Debug)]
pub struct Rustup {
    pub packages: Vec<Package>,
}

pub const BINARY: Text = "rustup";
pub const SECTION: Text = "rustup";
pub const SUPPORTS_AS_DEPENDENCY: bool = false;

/// Whether a rustup package is a toolchain or a component.
#[derive(Debug, Clone, Copy, PartialEq, Eq, Structural)]
pub enum Repotype {
    Toolchain,
    Component,
}

/// Why packages could not be handled by rustup.
#[derive(Debug)]
pub enum RustupError {
    /// The package does not say whether it is a toolchain or a component.
    MissingRepo,
    /// The repository is neither `toolchain` nor `component`.
    UnknownRepotype(String),
    /// A component package does not name both toolchain and component.
    MissingComponent,
}

/// A package as used exclusively in the rustup backend: a toolchain, or a
/// component of a toolchain.
#[derive(Debug)]
pub struct RustupPackage {
    /// Whether it is a toolchain or a component.
    pub repotype: Repotype,
    /// The name of the toolchain this belongs to (stable, nightly, a pinned
    /// version).
    pub toolchain: String,
    /// The component's name; a toolchain has none.
    pub component: Option<String>,
}

/// A rustup package seen as its kind, toolchain and component.
pub type RustupView = (Repotype, Seq<char>, Option<Seq<char>>);

impl View for RustupPackage {
    type V = RustupView;

    open spec fn view(&self) -> RustupView {
        (self.repotype, self.toolchain@, crate::package::opt_view(self.component))
    }
}

impl Clone for RustupPackage {
    fn clone(&self) -> (r: Self)
        ensures
            r == *self,
    {
        let component = match &self.component {
            Some(c) => Some(c.clone()),
            None => None,
        };
        RustupPackage { repotype: self.repotype, toolchain: self.toolchain.clone(), component }
    }
}

/// The rustup packages of a sequence, each seen as its view.
pub open spec fn rustup_view(v: Seq<RustupPackage>) -> Seq<RustupView> {
    v.map_values(|p: RustupPackage| p@)
}

/// A toolchain has no component name; a component has one.
pub open spec fn well_formed(p: RustupView) -> bool {
    match p.0 {
        Repotype::Toolchain => p.2 is None,
        Repotype::Component => p.2 is Some,
    }
}

/// The kind a repository names, if any.
pub open spec fn repotype_of(value: Seq<char>) -> Option<Repotype> {
    if value == "toolchain"@ {
        Some(Repotype::Toolchain)
    } else if value == "component"@ {
        Some(Repotype::Component)
    } else {
        None
    }
}

/// The error of a rustup operation, seen as a value.
pub open spec fn error_kind(e: RustupError) -> (int, Seq<char>) {
    match e {
        RustupError::MissingRepo => (0, seq![]),
        RustupError::UnknownRepotype(v) => (1, v@),
        RustupError::MissingComponent => (2, seq![]),
    }
}

/// The rustup package a package stands for: `toolchain/<name>` is the
/// toolchain `<name>`; `component/<toolchain>/<component>` (repository
/// `component`, name split at its first `/`) is that component.
pub open spec fn rustup_of(p: PackageView) -> Result<RustupView, (int, Seq<char>)> {
    match p.1 {
        None => Err((0, seq![])),
        Some(repo) => match repotype_of(repo) {
            None => Err((1, repo)),
            Some(Repotype::Toolchain) => Ok((Repotype::Toolchain, p.0, None)),
            Some(Repotype::Component) => {
                let k = find_char(p.0, '/');
                if k >= p.0.len() {
                    Err((2, seq![]))
                } else {
                    Ok((Repotype::Component, p.0.take(k), Some(p.0.skip(k + 1))))
                }
            },
        },
    }
}

/// The rustup packages the packages stand for, or the error of the first
/// that stands for none.
pub open spec fn rustup_all(ps: Seq<PackageView>) -> Result<Seq<RustupView>, (int, Seq<char>)>
    decreases ps.len(),
{
    if ps.len() == 0 {
        Ok(seq![])
    } else {
        match rustup_all(ps.drop_last()) {
            Err(e) => Err(e),
            Ok(prev) => match rustup_of(ps.last()) {
                Err(e) => Err(e),
                Ok(x) => Ok(prev.push(x)),
            },
        }
    }
}

impl Repotype {
    /// The kind `value` names: `toolchain` or `component`.
    pub fn try_from(value: &str) -> (r: Result<Self, RustupError>)
        ensures
            match r {
                Ok(t) => repotype_of(value@) == Some(t),
                Err(e) => repotype_of(value@) is None && error_kind(e) == (1int, value@),
            },
    {
        if str_eq(value, "toolchain") {
            Ok(Self::Toolchain)
        } else if str_eq(value, "component") {
            Ok(Self::Component)
        } else {
            Err(RustupError::UnknownRepotype(value.to_owned()))
        }
    }

    /// The switches that install a toolchain, or a component (followed by
    /// the toolchain and the component).
    pub fn get_install_switches(&self) -> (r: Switches)
        ensures
            words(r@) == install_switches(*self),
    {
        get_install_switches(*self)
    }

    /// The switches that remove a toolchain, or a component (followed by
    /// the toolchain and the component).
    pub fn get_remove_switches(&self) -> (r: Switches)
        ensures
            words(r@) == remove_switches(*self),
    {
        get_remove_switches(*self)
    }

    /// The switches that list the installed toolchains, or the installed
    /// components (followed by the toolchain).
    pub fn get_info_switches(&self) -> (r: Switches)
        ensures
            words(r@) == info_switches(*self),
    {
        get_info_switches(*self)
    }
}

/// The switches that install a package of kind `t`.
pub open spec fn install_switches(t: Repotype) -> Seq<Seq<char>> {
    match t {
        Repotype::Toolchain => seq!["toolchain"@, "install"@],
        Repotype::Component => seq!["component"@, "add"@, "--toolchain"@],
    }
}

/// The switches that remove a package of kind `t`.
pub open spec fn remove_switches(t: Repotype) -> Seq<Seq<char>> {
    match t {
        Repotype::Toolchain => seq!["toolchain"@, "uninstall"@],
        Repotype::Component => seq!["component"@, "remove"@, "--toolchain"@],
    }
}

/// The switches that list the installed packages of kind `t`.
pub open spec fn info_switches(t: Repotype) -> Seq<Seq<char>> {
    match t {
        Repotype::Toolchain => seq!["toolchain"@, "list"@],
        Repotype::Component => seq!["component"@, "list"@, "--installed"@, "--toolchain"@],
    }
}

/// The switches that install a package of kind `repotype`.
pub fn get_install_switches(repotype: Repotype) -> (r: Switches)
    ensures
        words(r@) == install_switches(repotype),
{
    match repotype {
        Repotype::Toolchain => &["toolchain", "install"],
        Repotype::Component => &["component", "add", "--toolchain"],
    }
}

/// The switches that remove a package of kind `repotype`.
pub fn get_remove_switches(repotype: Repotype) -> (r: Switches)
    ensures
        words(r@) == remove_switches(repotype),
{
    match repotype {
        Repotype::Toolchain => &["toolchain", "uninstall"],
        Repotype::Component => &["component", "remove", "--toolchain"],
    }
}

/// The switches that list the installed packages of kind `repotype`.
pub fn get_info_switches(repotype: Repotype) -> (r: Switches)
    ensures
        words(r@) == info_switches(repotype),
{
    match repotype {
        Repotype::Toolchain => &["toolchain", "list"],
        Repotype::Component => &["component", "list", "--installed", "--toolchain"],
    }
}

impl RustupPackage {
    /// A rustup package: a toolchain has no component name, a component
    /// has one.
    pub fn new(repotype: Repotype, toolchain: String, component: Option<String>) -> (r: Self)
        requires
            match repotype {
                Repotype::Toolchain => component is None,
                Repotype::Component => component is Some,
            },
        ensures
            r.repotype == repotype,
            r.toolchain == toolchain,
            r.component == component,
    {
        Self { repotype, toolchain, component }
    }

    /// The rustup package that `package` stands for.
    pub fn try_from(package: &Package) -> (r: Result<Self, RustupError>)
        ensures
            match r {
                Ok(p) => rustup_of(package@) == Ok::<RustupView, (int, Seq<char>)>(p@) && well_formed(p@),
                Err(e) => rustup_of(package@) == Err::<RustupView, (int, Seq<char>)>(error_kind(e)),
            },
    {
        let repo = match &package.repo {
            Some(r) => r,
            None => return Err(RustupError::MissingRepo),
        };
        let repotype = Repotype::try_from(repo.as_str())?;
        match repotype {
            Repotype::Toolchain => Ok(Self::new(repotype, package.name.clone(), None)),
            Repotype::Component => {
                let n = str_to_chars(package.name.as_str());
                let k = find_char_from(n.as_slice(), '/', 0);
                proof {
                    assert(n@.skip(0) =~= n@);
                }
                if k >= n.len() {
                    return Err(RustupError::MissingComponent);
                }
                let toolchain = chars_to_string(copy_range(n.as_slice(), 0, k).as_slice());
                let component = chars_to_string(copy_range(n.as_slice(), k + 1, n.len()).as_slice());
                proof {
                    assert(n@.subrange(0, k as int) =~= n@.take(k as int));
                    assert(n@.subrange(k + 1, n@.len() as int) =~= n@.skip(k + 1));
                }
                Ok(Self::new(repotype, toolchain, Some(component)))
            },
        }
    }
}

/// The rustup packages that `packages` stand for, in order; fails with the
/// first package that stands for none.
pub fn convert_all_packages_to_rustup_packages(packages: &[Package]) -> (r: Result<Vec<RustupPackage>, RustupError>)
    ensures
        match r {
            Ok(v) => rustup_all(packages_view(packages@)) == Ok::<Seq<RustupView>, (int, Seq<char>)>(rustup_view(v@))
                && forall|i: int| 0 <= i < v@.len() ==> well_formed(#[trigger] v@[i]@),
            Err(e) => rustup_all(packages_view(packages@)) == Err::<Seq<RustupView>, (int, Seq<char>)>(error_kind(e)),
        },
{
    let ghost pv = packages_view(packages@);
    let mut result: Vec<RustupPackage> = Vec::new();
    let mut i: usize = 0;
    proof {
        assert(pv.take(0) =~= Seq::<PackageView>::empty());
        assert(rustup_view(result@) =~= Seq::<RustupView>::empty());
    }
    while i < packages.len()
        invariant
            i <= packages@.len(),
            pv == packages_view(packages@),
            rustup_all(pv.take(i as int)) == Ok::<Seq<RustupView>, (int, Seq<char>)>(rustup_view(result@)),
            forall|k: int| 0 <= k < result@.len() ==> well_formed(#[trigger] result@[k]@),
        decreases packages.len() - i,
    {
        proof {
            assert(pv.take(i + 1).drop_last() =~= pv.take(i as int));
            assert(pv.take(i + 1).last() == packages@[i as int]@);
        }
        match RustupPackage::try_from(&packages[i]) {
            Ok(p) => {
                let ghost before = result@;
                result.push(p);
                proof {
                    assert(rustup_view(result@) =~= rustup_view(before).push(p@));
                }
            },
            Err(e) => {
                proof {
                    lemma_rustup_all_err_prefix(pv, i + 1);
                }
                return Err(e);
            },
        }
        i = i + 1;
    }
    proof {
        assert(pv.take(pv.len() as int) =~= pv);
    }
    Ok(result)
}

pub proof fn lemma_rustup_all_err_prefix(ps: Seq<PackageView>, k: int)
    requires
        0 <= k <= ps.len(),
        rustup_all(ps.take(k)) is Err,
    ensures
        rustup_all(ps) == rustup_all(ps.take(k)),
    decreases ps.len() - k,
{
    if k < ps.len() {
        assert(ps.take(k + 1).drop_last() =~= ps.take(k));
        lemma_rustup_all_err_prefix(ps, k + 1);
    } else {
        assert(ps.take(k) =~= ps);
    }
}

/// Whether the toolchain of `component` is among the removed toolchains.
pub fn toolchain_of_component_was_already_removed(removed_toolchains: &[String], component: &RustupPackage) -> (r: bool)
    ensures
        r == exists|i: int| 0 <= i < removed_toolchains@.len() && removed_toolchains@[i]@ == component.toolchain@,
{
    let mut i: usize = 0;
    while i < removed_toolchains.len()
        invariant
            i <= removed_toolchains@.len(),
            forall|j: int| 0 <= j < i ==> removed_toolchains@[j]@ != component.toolchain@,
        decreases removed_toolchains.len() - i,
    {
        if str_eq(removed_toolchains[i].as_str(), component.toolchain.as_str()) {
            return true;
        }
        i = i + 1;
    }
    false
}

/// Whether a rustup package is a toolchain.
pub open spec fn is_toolchain(p: RustupView) -> bool {
    p.0 == Repotype::Toolchain
}

/// Whether a rustup package is a component.
pub open spec fn is_component(p: RustupView) -> bool {
    p.0 == Repotype::Component
}

/// The toolchains and the components among `packages`, each in the order
/// they come in.
pub fn sort_packages_into_toolchains_and_components(packages: Vec<RustupPackage>) -> (r: (Vec<RustupPackage>, Vec<RustupPackage>))
    ensures
        rustup_view(r.0@) == rustup_view(packages@).filter(|p: RustupView| is_toolchain(p)),
        rustup_view(r.1@) == rustup_view(packages@).filter(|p: RustupView| is_component(p)),
{
    let ghost pv = rustup_view(packages@);
    let ghost tp = |p: RustupView| is_toolchain(p);
    let ghost cp = |p: RustupView| is_component(p);
    let mut toolchains: Vec<RustupPackage> = Vec::new();
    let mut components: Vec<RustupPackage> = Vec::new();
    let mut i: usize = 0;
    proof {
        assert(pv.take(0) =~= Seq::<RustupView>::empty());
        assert(pv.take(0).filter(tp) =~= Seq::<RustupView>::empty());
        assert(pv.take(0).filter(cp) =~= Seq::<RustupView>::empty());
        assert(rustup_view(toolchains@) =~= Seq::<RustupView>::empty());
        assert(rustup_view(components@) =~= Seq::<RustupView>::empty());
    }
    while i < packages.len()
        invariant
            i <= packages@.len(),
            pv == rustup_view(packages@),
            tp == (|p: RustupView| is_toolchain(p)),
            cp == (|p: RustupView| is_component(p)),
            rustup_view(toolchains@) == pv.take(i as int).filter(tp),
            rustup_view(components@) == pv.take(i as int).filter(cp),
        decreases packages.len() - i,
    {
        let p = packages[i].clone();
        proof {
            assert(pv.take(i + 1) =~= pv.take(i as int).push(p@));
            pv.take(i as int).lemma_filter_push(p@, tp);
            pv.take(i as int).lemma_filter_push(p@, cp);
        }
        match p.repotype {
            Repotype::Toolchain => {
                let ghost before = toolchains@;
                toolchains.push(p);
                proof {
                    assert(rustup_view(toolchains@) =~= rustup_view(before).push(p@));
                }
            },
            Repotype::Component => {
                let ghost before = components@;
                components.push(p);
                proof {
                    assert(rustup_view(components@) =~= rustup_view(before).push(p@));
                }
            },
        }
        i = i + 1;
    }
    proof {
        assert(pv.take(pv.len() as int) =~= pv);
    }
    (toolchains, components)
}

} // verus!

verus! {

/// Whether a component name is one word (no `-`): `cargo`, `rustfmt`,
/// `clippy`, `miri`, `rls` or `rustc`.
pub open spec fn single_word_component(c: Seq<char>) -> bool {
    c == "cargo"@ || c == "rustfmt"@ || c == "clippy"@ || c == "miri"@ || c == "rls"@ || c == "rustc"@
}

/// The first `-`-separated piece of `line`.
pub open spec fn first_piece(line: Seq<char>) -> Seq<char> {
    line.take(find_char(line, '-'))
}

/// The second `-`-separated piece of `line` (assumes a `-`).
pub open spec fn second_piece(line: Seq<char>) -> Seq<char> {
    let rest = line.skip(find_char(line, '-') + 1);
    rest.take(find_char(rest, '-'))
}

/// A line of `rustup component list` names a component: its first piece is
/// a one-word component, or a second piece follows.
pub open spec fn component_line_ok(line: Seq<char>) -> bool {
    single_word_component(first_piece(line)) || find_char(line, '-') < line.len()
}

/// The component that a line of `rustup component list --installed` names,
/// as `<toolchain>/<component>`: the first `-`-separated piece of the line
/// for one-word components, the first two pieces joined with `-` for the
/// others (the rest of the line is the target).
pub open spec fn component_of_line(line: Seq<char>, toolchain: Seq<char>) -> Seq<char> {
    if single_word_component(first_piece(line)) {
        toolchain + seq!['/'] + first_piece(line)
    } else {
        toolchain + seq!['/'] + first_piece(line) + seq!['-'] + second_piece(line)
    }
}

/// Append to `val` the component that `line` names, as
/// `<toolchain>/<component>`.
pub fn install_components(line: &str, toolchain: &str, val: &mut Vec<String>)
    requires
        component_line_ok(line@),
    ensures
        strings_view(final(val)@) == strings_view(old(val)@).push(component_of_line(line@, toolchain@)),
{
    let l = str_to_chars(line);
    let k = find_char_from(l.as_slice(), '-', 0);
    proof {
        assert(l@.skip(0) =~= l@);
        lemma_find_char_bounds(l@, '-');
    }
    let first = copy_range(l.as_slice(), 0, k);
    proof {
        assert(first@ =~= first_piece(l@));
    }
    let first_s = chars_to_string(first.as_slice());
    let fs = first_s.as_str();
    let single = str_eq(fs, "cargo") || str_eq(fs, "rustfmt") || str_eq(fs, "clippy") || str_eq(fs, "miri")
        || str_eq(fs, "rls") || str_eq(fs, "rustc");
    proof {
        assert(fs@ == first@);
        assert(single == single_word_component(first@));
        assert(l@ == line@);
    }
    let mut out = str_to_chars(toolchain);
    out.push('/');
    append_chars(&mut out, first.as_slice());
    let ghost base = out@;
    proof {
        assert(base =~= toolchain@ + seq!['/'] + first_piece(line@));
    }
    if !single {
        assert(k < l@.len());
        assert(l@.len() == l.len());
        let k1: usize = k + 1;
        let j = find_char_from(l.as_slice(), '-', k1);
        let second = copy_range(l.as_slice(), k + 1, j);
        proof {
            let rest = l@.skip(k + 1);
            lemma_find_char_bounds(rest, '-');
            assert(second@ =~= rest.take(find_char(rest, '-')));
        }
        out.push('-');
        append_chars(&mut out, second.as_slice());
        proof {
            assert(out@ =~= base + seq!['-'] + second_piece(line@));
        }
    }
    let ghost before = val@;
    val.push(chars_to_string(out.as_slice()));
    proof {
        assert(strings_view(val@) =~= strings_view(before).push(out@));
    }
}

/// The one-word components are exactly `cargo`, `rustfmt`, `clippy`,
/// `miri`, `rls` and `rustc`: a line of `rustup component list --installed`
/// that starts with one of them, then `-` and any target, names that
/// component in the toolchain.
pub proof fn lemma_one_word_component_line(name: Seq<char>, target: Seq<char>, toolchain: Seq<char>)
    requires
        name == "cargo"@ || name == "rustfmt"@ || name == "clippy"@ || name == "miri"@ || name == "rls"@
            || name == "rustc"@,
    ensures
        component_line_ok(name + seq!['-'] + target),
        component_of_line(name + seq!['-'] + target, toolchain) == toolchain + seq!['/'] + name,
{
    reveal_strlit("cargo");
    reveal_strlit("rustfmt");
    reveal_strlit("clippy");
    reveal_strlit("miri");
    reveal_strlit("rls");
    reveal_strlit("rustc");
    let line = name + seq!['-'] + target;
    assert forall|j: int| 0 <= j < name.len() implies line[j] != '-' by {
        assert(line[j] == name[j]);
    }
    assert(line[name.len() as int] == '-');
    crate::text::lemma_find_char_at(line, '-', name.len() as int);
    assert(line.take(name.len() as int) =~= name);
}

/// Any other component has a two-word name: a line whose first piece is
/// not one of the one-word components names the component made of its
/// first two `-`-separated pieces, whatever target follows.
pub proof fn lemma_two_word_component_line(
    first: Seq<char>,
    second: Seq<char>,
    target: Seq<char>,
    toolchain: Seq<char>,
)
    requires
        forall|j: int| 0 <= j < first.len() ==> first[j] != '-',
        forall|j: int| 0 <= j < second.len() ==> second[j] != '-',
        !(first == "cargo"@ || first == "rustfmt"@ || first == "clippy"@ || first == "miri"@ || first == "rls"@
            || first == "rustc"@),
    ensures
        component_line_ok(first + seq!['-'] + second + seq!['-'] + target),
        component_of_line(first + seq!['-'] + second + seq!['-'] + target, toolchain) == toolchain + seq!['/']
            + first + seq!['-'] + second,
{
    let line = first + seq!['-'] + second + seq!['-'] + target;
    assert forall|j: int| 0 <= j < first.len() implies line[j] != '-' by {
        assert(line[j] == first[j]);
    }
    assert(line[first.len() as int] == '-');
    crate::text::lemma_find_char_at(line, '-', first.len() as int);
    assert(line.take(first.len() as int) =~= first);
    let rest = line.skip(first.len() as int + 1);
    assert(rest =~= second + seq!['-'] + target);
    assert forall|j: int| 0 <= j < second.len() implies rest[j] != '-' by {
        assert(rest[j] == second[j]);
    }
    assert(rest[second.len() as int] == '-');
    crate::text::lemma_find_char_at(rest, '-', second.len() as int);
    assert(rest.take(second.len() as int) =~= second);
}

/// Append `w` to `v`.
pub fn append_chars(v: &mut Vec<char>, w: &[char])
    ensures
        final(v)@ == old(v)@ + w@,
{
    let ghost start = v@;
    let mut i: usize = 0;
    while i < w.len()
        invariant
            i <= w@.len(),
            v@ == start + w@.take(i as int),
        decreases w.len() - i,
    {
        v.push(w[i]);
        i = i + 1;
        assert(v@ =~= start + w@.take(i as int));
    }
    assert(w@.take(w@.len() as int) =~= w@);
}

/// Index of the first group whose toolchain is `t`, or `-1`.
pub open spec fn toolchain_index(gs: Seq<Seq<RustupView>>, t: Seq<char>) -> int
    decreases gs.len(),
{
    if gs.len() == 0 {
        -1
    } else {
        let prev = toolchain_index(gs.drop_last(), t);
        if prev >= 0 {
            prev
        } else if gs.last().len() > 0 && gs.last()[0].1 == t {
            gs.len() - 1
        } else {
            -1
        }
    }
}

/// The components grouped by toolchain: groups in the order their
/// toolchain first appears, each holding that toolchain's components in
/// the order they come in.
pub open spec fn group_by_toolchain(cs: Seq<RustupView>) -> Seq<Seq<RustupView>>
    decreases cs.len(),
{
    if cs.len() == 0 {
        seq![]
    } else {
        let prev = group_by_toolchain(cs.drop_last());
        let x = cs.last();
        let k = toolchain_index(prev, x.1);
        if k >= 0 {
            prev.update(k, prev[k].push(x))
        } else {
            prev.push(seq![x])
        }
    }
}

pub proof fn lemma_toolchain_index(gs: Seq<Seq<RustupView>>, t: Seq<char>)
    ensures
        -1 <= toolchain_index(gs, t) < gs.len(),
        toolchain_index(gs, t) >= 0 ==> gs[toolchain_index(gs, t)].len() > 0 && gs[toolchain_index(gs, t)][0].1 == t,
        toolchain_index(gs, t) == -1 ==> forall|i: int| 0 <= i < gs.len() && gs[i].len() > 0 ==> gs[i][0].1 != t,
        forall|i: int| 0 <= i < toolchain_index(gs, t) && gs[i].len() > 0 ==> gs[i][0].1 != t,
    decreases gs.len(),
{
    if gs.len() > 0 {
        lemma_toolchain_index(gs.drop_last(), t);
        assert forall|i: int| 0 <= i < gs.len() - 1 implies gs[i] == gs.drop_last()[i] by {}
    }
}

pub proof fn lemma_toolchain_index_at(gs: Seq<Seq<RustupView>>, t: Seq<char>, k: int)
    requires
        0 <= k <= gs.len(),
        forall|i: int| 0 <= i < k ==> gs[i].len() > 0 && gs[i][0].1 != t,
        k == gs.len() || (gs[k].len() > 0 && gs[k][0].1 == t),
    ensures
        toolchain_index(gs, t) == (if k < gs.len() { k } else { -1 }),
    decreases gs.len(),
{
    if gs.len() > 0 {
        if k < gs.len() {
            if k < gs.len() - 1 {
                assert forall|i: int| 0 <= i < k implies gs.drop_last()[i].len() > 0 && gs.drop_last()[i][0].1 != t by {
                    assert(gs.drop_last()[i] == gs[i]);
                }
                assert(gs.drop_last()[k] == gs[k]);
                lemma_toolchain_index_at(gs.drop_last(), t, k);
            } else {
                assert forall|i: int| 0 <= i < k implies gs.drop_last()[i].len() > 0 && gs.drop_last()[i][0].1 != t by {
                    assert(gs.drop_last()[i] == gs[i]);
                }
                lemma_toolchain_index_at(gs.drop_last(), t, k);
            }
        } else {
            assert forall|i: int| 0 <= i < gs.len() - 1 implies gs.drop_last()[i].len() > 0 && gs.drop_last()[i][0].1 != t by {
                assert(gs.drop_last()[i] == gs[i]);
            }
            lemma_toolchain_index_at(gs.drop_last(), t, gs.len() - 1);
        }
    }
}

/// Every group is non-empty and holds the components of one toolchain,
/// and no two groups share a toolchain.
pub open spec fn grouped_by_toolchain(gs: Seq<Seq<RustupView>>) -> bool {
    &&& forall|i: int| 0 <= i < gs.len() ==> gs[i].len() > 0
    &&& forall|i: int, j: int| 0 <= i < gs.len() && 0 <= j < gs[i].len() ==> (#[trigger] gs[i][j]).1 == gs[i][0].1
    &&& forall|i: int, j: int| 0 <= i < j < gs.len() ==> gs[i][0].1 != gs[j][0].1
}

pub proof fn lemma_group_by_toolchain_shape(cs: Seq<RustupView>)
    ensures
        grouped_by_toolchain(group_by_toolchain(cs)),
    decreases cs.len(),
{
    if cs.len() > 0 {
        let prev = group_by_toolchain(cs.drop_last());
        lemma_group_by_toolchain_shape(cs.drop_last());
        let x = cs.last();
        lemma_toolchain_index(prev, x.1);
        let k = toolchain_index(prev, x.1);
        let g = group_by_toolchain(cs);
        if k >= 0 {
            assert forall|i: int, j: int| 0 <= i < g.len() && 0 <= j < g[i].len() implies (#[trigger] g[i][j]).1 == g[i][0].1 by {
                if i == k {
                    if j < prev[k].len() {
                        assert(g[i][j] == prev[k][j]);
                    }
                    assert(g[i][0] == prev[k][0]);
                } else {
                    assert(g[i] == prev[i]);
                }
            }
            assert forall|i: int, j: int| 0 <= i < j < g.len() implies g[i][0].1 != g[j][0].1 by {
                assert(g[i][0] == prev[i][0]);
                assert(g[j][0] == prev[j][0]);
            }
        } else {
            assert forall|i: int, j: int| 0 <= i < g.len() && 0 <= j < g[i].len() implies (#[trigger] g[i][j]).1 == g[i][0].1 by {
                if i < prev.len() {
                    assert(g[i] == prev[i]);
                }
            }
            assert forall|i: int, j: int| 0 <= i < j < g.len() implies g[i][0].1 != g[j][0].1 by {
                if j < prev.len() {
                    assert(g[i] == prev[i]);
                    assert(g[j] == prev[j]);
                } else {
                    assert(g[i] == prev[i]);
                }
            }
        }
    }
}

/// The groups of rustup packages, each group seen as the views of its
/// packages.
pub open spec fn groups_of_view(v: Seq<Vec<RustupPackage>>) -> Seq<Seq<RustupView>> {
    v.map_values(|g: Vec<RustupPackage>| rustup_view(g@))
}

/// The components grouped by toolchain: one group per toolchain, in the
/// order the toolchains first appear, each holding that toolchain's
/// components in their order.
pub fn group_components_by_toolchains(components: Vec<RustupPackage>) -> (r: Vec<Vec<RustupPackage>>)
    ensures
        groups_of_view(r@) == group_by_toolchain(rustup_view(components@)),
        grouped_by_toolchain(groups_of_view(r@)),
{
    let ghost cv = rustup_view(components@);
    let mut result: Vec<Vec<RustupPackage>> = Vec::new();
    let mut toolchains: Vec<String> = Vec::new();
    let mut i: usize = 0;
    proof {
        assert(cv.take(0) =~= Seq::<RustupView>::empty());
        assert(groups_of_view(result@) =~= Seq::<Seq<RustupView>>::empty());
    }
    while i < components.len()
        invariant
            i <= components@.len(),
            cv == rustup_view(components@),
            groups_of_view(result@) == group_by_toolchain(cv.take(i as int)),
            toolchains@.len() == result@.len(),
            forall|k: int| 0 <= k < result@.len() ==> (#[trigger] groups_of_view(result@)[k]).len() > 0 && toolchains@[k]@ == groups_of_view(result@)[k][0].1,
        decreases components.len() - i,
    {
        let component = components[i].clone();
        let ghost gv = groups_of_view(result@);
        proof {
            assert(cv.take(i + 1).drop_last() =~= cv.take(i as int));
            assert(cv.take(i + 1).last() == component@);
        }
        let mut k: usize = 0;
        while k < toolchains.len() && !str_eq(toolchains[k].as_str(), component.toolchain.as_str())
            invariant
                k <= toolchains@.len(),
                toolchains@.len() == result@.len(),
                gv == groups_of_view(result@),
                forall|m: int| 0 <= m < result@.len() ==> (#[trigger] gv[m]).len() > 0 && toolchains@[m]@ == gv[m][0].1,
                forall|m: int| 0 <= m < k ==> gv[m].len() > 0 && gv[m][0].1 != component@.1,
            decreases toolchains.len() - k,
        {
            k = k + 1;
        }
        proof {
            lemma_toolchain_index_at(gv, component@.1, k as int);
        }
        if k < toolchains.len() {
            let mut inner = result.remove(k);
            let ghost old_inner = inner@;
            inner.push(component);
            result.insert(k, inner);
            proof {
                assert(rustup_view(inner@) =~= rustup_view(old_inner).push(component@));
                assert(groups_of_view(result@) =~= gv.update(k as int, gv[k as int].push(component@)));
                assert(gv[k as int] == rustup_view(old_inner));
            }
        } else {
            let name = component.toolchain.clone();
            toolchains.push(name);
            let mut g: Vec<RustupPackage> = Vec::new();
            g.push(component);
            result.push(g);
            proof {
                assert(rustup_view(g@) =~= seq![component@]);
                assert(groups_of_view(result@) =~= gv.push(seq![component@]));
                assert(groups_of_view(result@)[gv.len() as int][0] == component@);
            }
        }
        i = i + 1;
    }
    proof {
        assert(cv.take(cv.len() as int) =~= cv);
        lemma_group_by_toolchain_shape(cv);
    }
    result
}

} // verus!

verus! {

/// Command lines, each seen as its words.
pub open spec fn commands_view(v: Seq<Vec<String>>) -> Seq<Seq<Seq<char>>> {
    v.map_values(|c: Vec<String>| strings_view(c@))
}

/// The toolchains of rustup packages, in order.
pub open spec fn toolchain_names(ps: Seq<RustupView>) -> Seq<Seq<char>> {
    ps.map_values(|p: RustupView| p.1)
}

/// The component names of rustup packages, in order.
pub open spec fn component_names(ps: Seq<RustupView>) -> Seq<Seq<char>> {
    ps.map_values(|p: RustupView| p.2.unwrap())
}

/// The command that installs the toolchains `ts`, if there are any.
pub open spec fn toolchain_install_commands(ts: Seq<RustupView>) -> Seq<Seq<Seq<char>>> {
    if ts.len() == 0 {
        seq![]
    } else {
        seq![seq!["rustup"@] + install_switches(Repotype::Toolchain) + toolchain_names(ts)]
    }
}

/// The command that installs one toolchain's components `g`.
pub open spec fn component_group_install_command(g: Seq<RustupView>) -> Seq<Seq<char>> {
    seq!["rustup"@] + install_switches(Repotype::Component) + seq![g[0].1] + component_names(g)
}

/// One command per toolchain that installs its components, in the order
/// the toolchains first appear.
pub open spec fn component_install_commands(cs: Seq<RustupView>) -> Seq<Seq<Seq<char>>> {
    group_by_toolchain(cs).map_values(|g: Seq<RustupView>| component_group_install_command(g))
}

/// The command that removes the toolchains `ts`, if there are any.
pub open spec fn toolchain_remove_commands(ts: Seq<RustupView>) -> Seq<Seq<Seq<char>>> {
    if ts.len() == 0 {
        seq![]
    } else {
        seq![seq!["rustup"@] + remove_switches(Repotype::Toolchain) + toolchain_names(ts)]
    }
}

/// Whether `names` holds `t`.
pub open spec fn names_hold(names: Seq<Seq<char>>, t: Seq<char>) -> bool {
    exists|i: int| 0 <= i < names.len() && names[i] == t
}

/// The command that removes the component `c`.
pub open spec fn component_remove_command(c: RustupView) -> Seq<Seq<char>> {
    seq!["rustup"@] + remove_switches(Repotype::Component) + seq![c.1, c.2.unwrap()]
}

/// One command per component whose toolchain is not among `removed`, in
/// order.
pub open spec fn component_remove_commands(cs: Seq<RustupView>, removed: Seq<Seq<char>>) -> Seq<Seq<Seq<char>>> {
    cs.filter(|c: RustupView| !names_hold(removed, c.1)).map_values(|c: RustupView| component_remove_command(c))
}

/// Every package is a component with a component name.
pub open spec fn all_components(cs: Seq<RustupView>) -> bool {
    forall|i: int| 0 <= i < cs.len() ==> (#[trigger] cs[i]).0 == Repotype::Component && cs[i].2 is Some
}

/// Every package is a toolchain.
pub open spec fn all_toolchains(ts: Seq<RustupView>) -> bool {
    forall|i: int| 0 <= i < ts.len() ==> (#[trigger] ts[i]).0 == Repotype::Toolchain
}

/// Append the toolchains of `ps` to the command line `cmd`.
fn push_toolchains(cmd: &mut Vec<String>, ps: &Vec<RustupPackage>)
    ensures
        strings_view(final(cmd)@) == strings_view(old(cmd)@) + toolchain_names(rustup_view(ps@)),
{
    let ghost start = strings_view(cmd@);
    let ghost names = toolchain_names(rustup_view(ps@));
    let mut i: usize = 0;
    proof {
        assert(names.take(0) =~= Seq::<Seq<char>>::empty());
        assert(strings_view(cmd@) =~= start + names.take(0));
    }
    while i < ps.len()
        invariant
            i <= ps@.len(),
            names == toolchain_names(rustup_view(ps@)),
            strings_view(cmd@) == start + names.take(i as int),
        decreases ps.len() - i,
    {
        let ghost before = cmd@;
        cmd.push(ps[i].toolchain.clone());
        proof {
            assert(strings_view(cmd@) =~= strings_view(before).push(ps@[i as int].toolchain@));
            assert(names.take(i + 1) =~= names.take(i as int).push(ps@[i as int].toolchain@));
        }
        i = i + 1;
    }
    proof {
        assert(names.take(names.len() as int) =~= names);
    }
}

/// Append the component names of `ps` to the command line `cmd`.
fn push_components(cmd: &mut Vec<String>, ps: &Vec<RustupPackage>)
    requires
        all_components(rustup_view(ps@)),
    ensures
        strings_view(final(cmd)@) == strings_view(old(cmd)@) + component_names(rustup_view(ps@)),
{
    let ghost start = strings_view(cmd@);
    let ghost names = component_names(rustup_view(ps@));
    let mut i: usize = 0;
    proof {
        assert(names.take(0) =~= Seq::<Seq<char>>::empty());
        assert(strings_view(cmd@) =~= start + names.take(0));
    }
    while i < ps.len()
        invariant
            i <= ps@.len(),
            names == component_names(rustup_view(ps@)),
            all_components(rustup_view(ps@)),
            strings_view(cmd@) == start + names.take(i as int),
        decreases ps.len() - i,
    {
        proof {
            assert(rustup_view(ps@)[i as int] == ps@[i as int]@);
        }
        let c = match &ps[i].component {
            Some(c) => c.clone(),
            None => String::new(),
        };
        let ghost before = cmd@;
        cmd.push(c);
        proof {
            assert(strings_view(cmd@) =~= strings_view(before).push(names[i as int]));
            assert(names.take(i + 1) =~= names.take(i as int).push(names[i as int]));
        }
        i = i + 1;
    }
    proof {
        assert(names.take(names.len() as int) =~= names);
    }
}

impl Rustup {
    /// The backend with no packages.
    pub fn new() -> (r: Self)
        ensures
            r.packages@.len() == 0,
    {
        Self { packages: Vec::new() }
    }

    /// The binary to run.
    pub fn get_binary(&self) -> (r: Text)
        ensures
            r@ == "rustup"@,
    {
        BINARY
    }

    /// The section of group files that this backend reads.
    pub fn get_section(&self) -> (r: Text)
        ensures
            r@ == "rustup"@,
    {
        SECTION
    }

    /// The switches that show information on packages.
    pub fn get_switches_info(&self) -> (r: Switches)
        ensures
            words(r@) == seq!["component"@, "list"@, "--installed"@],
    {
        &["component", "list", "--installed"]
    }

    /// The switches that install packages.
    pub fn get_switches_install(&self) -> (r: Switches)
        ensures
            words(r@) == seq!["component"@, "add"@],
    {
        &["component", "add"]
    }

    /// The switches that remove packages.
    pub fn get_switches_remove(&self) -> (r: Switches)
        ensures
            words(r@) == seq!["component"@, "remove"@],
    {
        &["component", "remove"]
    }

    /// The switches that skip confirmation (none are needed).
    pub fn get_switches_noconfirm(&self) -> (r: Switches)
        ensures
            words(r@) == Seq::<Seq<char>>::empty(),
    {
        &[]
    }

    /// The switches that mark packages as dependencies (none exist).
    pub fn get_switches_make_dependency(&self) -> (r: Switches)
        ensures
            words(r@) == Seq::<Seq<char>>::empty(),
    {
        &[]
    }

    /// Whether packages can be marked as dependencies.
    pub fn supports_as_dependency(&self) -> (r: bool)
        ensures
            !r,
    {
        SUPPORTS_AS_DEPENDENCY
    }

    /// Add the packages of the `rustup` section of every group to the
    /// managed packages.
    pub fn load(&mut self, groups: &Vec<Group>)
        requires
            distinct_packages(packages_view(old(self).packages@)),
        ensures
            packages_view(final(self).packages@) == add_groups(packages_view(old(self).packages@), groups_view(groups@), "rustup"@),
    {
        load_section(&mut self.packages, groups, SECTION);
    }

    /// The command that installs the toolchains, if there are any.
    pub fn install_toolchains(&self, toolchains: &Vec<RustupPackage>) -> (r: Vec<Vec<String>>)
        ensures
            commands_view(r@) == toolchain_install_commands(rustup_view(toolchains@)),
    {
        let mut out: Vec<Vec<String>> = Vec::new();
        if toolchains.len() == 0 {
            proof {
                assert(commands_view(out@) =~= Seq::<Seq<Seq<char>>>::empty());
            }
            return out;
        }
        let mut cmd = command(BINARY);
        push_switches(&mut cmd, get_install_switches(Repotype::Toolchain));
        push_toolchains(&mut cmd, toolchains);
        out.push(cmd);
        proof {
            assert(commands_view(out@) =~= seq![strings_view(cmd@)]);
        }
        out
    }

    /// One command per toolchain that installs its components, in the
    /// order the toolchains first appear.
    pub fn install_components(&self, components: &Vec<RustupPackage>) -> (r: Vec<Vec<String>>)
        requires
            all_components(rustup_view(components@)),
        ensures
            commands_view(r@) == component_install_commands(rustup_view(components@)),
    {
        let ghost cv = rustup_view(components@);
        let copy = components.clone();
        proof {
            assert forall|k: int| 0 <= k < copy@.len() implies copy@[k] == components@[k] by {
                assert(cloned::<RustupPackage>(components[k], copy[k]));
            }
            assert(rustup_view(copy@) =~= cv);
        }
        let groups = group_components_by_toolchains(copy);
        let ghost gs = groups_of_view(groups@);
        proof {
            lemma_group_by_toolchain_components(cv);
        }
        let mut out: Vec<Vec<String>> = Vec::new();
        let mut i: usize = 0;
        proof {
            assert(commands_view(out@) =~= component_install_commands(cv).take(0));
        }
        while i < groups.len()
            invariant
                i <= groups@.len(),
                gs == groups_of_view(groups@),
                gs == group_by_toolchain(cv),
                grouped_by_toolchain(gs),
                forall|k: int| 0 <= k < gs.len() ==> all_components(#[trigger] gs[k]),
                commands_view(out@) == component_install_commands(cv).take(i as int),
            decreases groups.len() - i,
        {
            let g = &groups[i];
            proof {
                assert(gs[i as int] == rustup_view(g@));
                assert(gs[i as int].len() > 0);
                assert(all_components(gs[i as int]));
            }
            let mut cmd = command(BINARY);
            push_switches(&mut cmd, get_install_switches(Repotype::Component));
            let t = g[0].toolchain.clone();
            push_word(&mut cmd, t.as_str());
            push_components(&mut cmd, g);
            let ghost before = out@;
            out.push(cmd);
            proof {
                assert(strings_view(cmd@) == component_group_install_command(gs[i as int]));
                assert(commands_view(out@) =~= commands_view(before).push(strings_view(cmd@)));
                assert(component_install_commands(cv).take(i + 1) =~= component_install_commands(cv).take(
                    i as int,
                ).push(component_group_install_command(gs[i as int])));
            }
            i = i + 1;
        }
        proof {
            assert(component_install_commands(cv).take(gs.len() as int) =~= component_install_commands(cv));
        }
        out
    }
}

pub proof fn lemma_group_by_toolchain_components(cs: Seq<RustupView>)
    requires
        all_components(cs),
    ensures
        forall|k: int| 0 <= k < group_by_toolchain(cs).len() ==> all_components(#[trigger] group_by_toolchain(cs)[k]),
    decreases cs.len(),
{
    if cs.len() > 0 {
        let prev = group_by_toolchain(cs.drop_last());
        assert(all_components(cs.drop_last())) by {
            assert forall|i: int| 0 <= i < cs.drop_last().len() implies (#[trigger] cs.drop_last()[i]).0
                == Repotype::Component && cs.drop_last()[i].2 is Some by {
                assert(cs.drop_last()[i] == cs[i]);
            }
        }
        lemma_group_by_toolchain_components(cs.drop_last());
        let x = cs.last();
        assert(x == cs[cs.len() - 1]);
        let k = toolchain_index(prev, x.1);
        lemma_toolchain_index(prev, x.1);
        let g = group_by_toolchain(cs);
        assert forall|m: int| 0 <= m < g.len() implies all_components(#[trigger] g[m]) by {
            if k >= 0 {
                if m == k {
                    assert(all_components(prev[k]));
                    assert forall|j: int| 0 <= j < g[m].len() implies (#[trigger] g[m][j]).0 == Repotype::Component
                        && g[m][j].2 is Some by {
                        if j < prev[k].len() {
                            assert(g[m][j] == prev[k][j]);
                        }
                    }
                } else {
                    assert(g[m] == prev[m]);
                }
            } else {
                if m < prev.len() {
                    assert(g[m] == prev[m]);
                } else {
                    assert(g[m] == seq![x]);
                }
            }
        }
    }
}

} // verus!

verus! {

/// Every rustup package of `rs` is well formed.
pub open spec fn all_well_formed(rs: Seq<RustupView>) -> bool {
    forall|i: int| 0 <= i < rs.len() ==> well_formed(#[trigger] rs[i])
}

/// The toolchains among `rs`, in order.
pub open spec fn toolchains_of(rs: Seq<RustupView>) -> Seq<RustupView> {
    rs.filter(|p: RustupView| is_toolchain(p))
}

/// The components among `rs`, in order.
pub open spec fn components_of(rs: Seq<RustupView>) -> Seq<RustupView> {
    rs.filter(|p: RustupView| is_component(p))
}

pub proof fn lemma_split_kinds(rs: Seq<RustupView>)
    requires
        all_well_formed(rs),
    ensures
        all_components(components_of(rs)),
        all_toolchains(toolchains_of(rs)),
{
    broadcast use vstd::seq_lib::group_seq_properties;
    let cp = |p: RustupView| is_component(p);
    let tp = |p: RustupView| is_toolchain(p);
    assert forall|i: int| 0 <= i < rs.filter(cp).len() implies (#[trigger] rs.filter(cp)[i]).0 == Repotype::Component
        && rs.filter(cp)[i].2 is Some by {
        rs.lemma_filter_pred(cp, i);
        let x = rs.filter(cp)[i];
        assert(rs.filter(cp).contains(x));
        rs.lemma_filter_contains_rev(cp, x);
        let j = choose|j: int| 0 <= j < rs.len() && rs[j] == x;
        assert(well_formed(rs[j]));
    }
    assert forall|i: int| 0 <= i < rs.filter(tp).len() implies (#[trigger] rs.filter(tp)[i]).0 == Repotype::Toolchain by {
        rs.lemma_filter_pred(tp, i);
    }
}

/// The commands that remove the packages: one for all toolchains, then one
/// per component whose toolchain is not removed with them.
pub open spec fn remove_commands(rs: Seq<RustupView>) -> Seq<Seq<Seq<char>>> {
    toolchain_remove_commands(toolchains_of(rs)) + component_remove_commands(
        components_of(rs),
        toolchain_names(toolchains_of(rs)),
    )
}

impl Rustup {
    /// The command that removes the toolchains, if there are any, and the
    /// toolchains it removes.
    pub fn remove_toolchains(&self, toolchains: &Vec<RustupPackage>) -> (r: (Vec<Vec<String>>, Vec<String>))
        ensures
            commands_view(r.0@) == toolchain_remove_commands(rustup_view(toolchains@)),
            strings_view(r.1@) == toolchain_names(rustup_view(toolchains@)),
    {
        let mut out: Vec<Vec<String>> = Vec::new();
        let mut removed: Vec<String> = Vec::new();
        push_toolchains(&mut removed, toolchains);
        proof {
            assert(strings_view(Seq::<String>::empty()) =~= Seq::<Seq<char>>::empty());
        }
        if toolchains.len() == 0 {
            proof {
                assert(commands_view(out@) =~= Seq::<Seq<Seq<char>>>::empty());
            }
            return (out, removed);
        }
        let mut cmd = command(BINARY);
        push_switches(&mut cmd, get_remove_switches(Repotype::Toolchain));
        push_toolchains(&mut cmd, toolchains);
        out.push(cmd);
        proof {
            assert(commands_view(out@) =~= seq![strings_view(cmd@)]);
        }
        (out, removed)
    }

    /// One command per component whose toolchain is not among `removed`,
    /// in order.
    pub fn remove_components(&self, components: &Vec<RustupPackage>, removed: &Vec<String>) -> (r: Vec<Vec<String>>)
        requires
            all_components(rustup_view(components@)),
        ensures
            commands_view(r@) == component_remove_commands(rustup_view(components@), strings_view(removed@)),
    {
        let ghost cv = rustup_view(components@);
        let ghost rv = strings_view(removed@);
        let ghost keep = |c: RustupView| !names_hold(rv, c.1);
        let mut out: Vec<Vec<String>> = Vec::new();
        let mut i: usize = 0;
        proof {
            assert(cv.take(0).filter(keep) =~= Seq::<RustupView>::empty());
            assert(commands_view(out@) =~= cv.take(0).filter(keep).map_values(|c: RustupView| component_remove_command(c)));
        }
        while i < components.len()
            invariant
                i <= components@.len(),
                cv == rustup_view(components@),
                rv == strings_view(removed@),
                keep == (|c: RustupView| !names_hold(rv, c.1)),
                all_components(cv),
                commands_view(out@) == cv.take(i as int).filter(keep).map_values(|c: RustupView| component_remove_command(c)),
            decreases components.len() - i,
        {
            let c = &components[i];
            proof {
                assert(cv[i as int] == c@);
                assert(cv.take(i + 1) =~= cv.take(i as int).push(c@));
                cv.take(i as int).lemma_filter_push(c@, keep);
            }
            let gone = toolchain_of_component_was_already_removed(removed.as_slice(), c);
            proof {
                if gone {
                    let j = choose|j: int| 0 <= j < removed@.len() && removed@[j]@ == c.toolchain@;
                    assert(rv[j] == c.toolchain@);
                } else {
                    assert forall|j: int| 0 <= j < rv.len() implies rv[j] != c@.1 by {
                        assert(rv[j] == removed@[j]@);
                    }
                }
                assert(gone == names_hold(rv, c@.1));
            }
            if !gone {
                let mut cmd = command(BINARY);
                push_switches(&mut cmd, get_remove_switches(Repotype::Component));
                push_word(&mut cmd, c.toolchain.as_str());
                let name = match &c.component {
                    Some(n) => n.clone(),
                    None => String::new(),
                };
                push_word(&mut cmd, name.as_str());
                let ghost before = out@;
                out.push(cmd);
                proof {
                    assert(strings_view(cmd@) =~= component_remove_command(c@));
                    assert(commands_view(out@) =~= commands_view(before).push(strings_view(cmd@)));
                    assert(cv.take(i + 1).filter(keep) =~= cv.take(i as int).filter(keep).push(c@));
                    assert(cv.take(i + 1).filter(keep).map_values(|c: RustupView| component_remove_command(c))
                        =~= cv.take(i as int).filter(keep).map_values(|c: RustupView| component_remove_command(c)).push(
                        component_remove_command(c@),
                    ));
                }
            }
            i = i + 1;
        }
        proof {
            assert(cv.take(cv.len() as int) =~= cv);
        }
        out
    }

    /// The commands that install `packages`, one per package in order: a
    /// toolchain with `rustup toolchain install <name>`, a component
    /// `<toolchain>/<component>` with `rustup component add --toolchain
    /// <toolchain> <component>`. Stops at the first package that names no
    /// toolchain or component: the commands of the packages before it, and
    /// its error.
    pub fn install_packages(&self, packages: &[Package]) -> (r: (Vec<Vec<String>>, Option<RustupError>))
        ensures
            commands_view(r.0@) == install_plan(packages_view(packages@)).0,
            match install_plan(packages_view(packages@)).1 {
                Some(k) => r.1 matches Some(e) && error_kind(e) == k,
                None => r.1 is None,
            },
    {
        let ghost pv = packages_view(packages@);
        let mut out: Vec<Vec<String>> = Vec::new();
        let mut i: usize = 0;
        proof {
            assert(pv.take(0) =~= Seq::<PackageView>::empty());
            assert(commands_view(out@) =~= Seq::<Seq<Seq<char>>>::empty());
        }
        while i < packages.len()
            invariant
                i <= packages@.len(),
                pv == packages_view(packages@),
                install_plan(pv.take(i as int)).1 is None,
                commands_view(out@) == install_plan(pv.take(i as int)).0,
            decreases packages.len() - i,
        {
            proof {
                assert(pv.take(i + 1).drop_last() =~= pv.take(i as int));
                assert(pv.take(i + 1).last() == packages@[i as int]@);
            }
            match install_command(&packages[i]) {
                Ok(cmd) => {
                    let ghost before = out@;
                    out.push(cmd);
                    proof {
                        assert(commands_view(out@) =~= commands_view(before).push(strings_view(cmd@)));
                    }
                },
                Err(e) => {
                    proof {
                        lemma_install_plan_stops(pv, i + 1);
                    }
                    return (out, Some(e));
                },
            }
            i = i + 1;
        }
        proof {
            assert(pv.take(pv.len() as int) =~= pv);
        }
        (out, None)
    }

    /// The commands that remove `packages`: one for all toolchains, then
    /// one per component whose toolchain is not removed with them; fails,
    /// before any command, with the first package that names no toolchain
    /// or component.
    pub fn remove_packages(&self, packages: &[Package]) -> (r: Result<Vec<Vec<String>>, RustupError>)
        ensures
            match rustup_all(packages_view(packages@)) {
                Ok(rs) => r matches Ok(cmds) && commands_view(cmds@) == remove_commands(rs),
                Err(k) => r matches Err(e) && error_kind(e) == k,
            },
    {
        let rustup_packages = convert_all_packages_to_rustup_packages(packages)?;
        let ghost rs = rustup_view(rustup_packages@);
        let (toolchains, components) = sort_packages_into_toolchains_and_components(rustup_packages);
        proof {
            lemma_split_kinds(rs);
        }
        let (mut out, removed) = self.remove_toolchains(&toolchains);
        let mut more = self.remove_components(&components, &removed);
        let ghost a = commands_view(out@);
        let ghost b = commands_view(more@);
        out.append(&mut more);
        proof {
            assert(commands_view(out@) =~= a + b);
        }
        Ok(out)
    }
}

} // verus!

verus! {

/// The toolchains that `rustup toolchain list` prints: the first
/// `-`-separated piece of each line.
pub open spec fn toolchains_of_lines(lines: Seq<Seq<char>>) -> Seq<Seq<char>> {
    lines.map_values(|l: Seq<char>| first_piece(l))
}

/// The components that `rustup component list --installed` prints for
/// `toolchain`, as `<toolchain>/<component>`.
pub open spec fn components_of_lines(lines: Seq<Seq<char>>, toolchain: Seq<char>) -> Seq<Seq<char>> {
    lines.map_values(|l: Seq<char>| component_of_line(l, toolchain))
}

/// Each line names a component.
pub open spec fn component_lines_ok(lines: Seq<Seq<char>>) -> bool {
    forall|i: int| 0 <= i < lines.len() ==> component_line_ok(#[trigger] lines[i])
}

/// `prefix` followed by each of `names`.
pub open spec fn prefixed(prefix: Seq<char>, names: Seq<Seq<char>>) -> Seq<Seq<char>> {
    names.map_values(|n: Seq<char>| prefix + n)
}

/// The installed packages: `toolchain/<t>` for each toolchain and
/// `component/<c>` for each component, each package once.
pub open spec fn installed_rustup_packages(toolchains: Seq<Seq<char>>, components: Seq<Seq<char>>) -> Seq<PackageView> {
    crate::package::packages_of(prefixed("toolchain/"@, toolchains) + prefixed("component/"@, components))
}

/// The first `-`-separated piece of `line`.
fn first_piece_of(line: &str) -> (r: String)
    ensures
        r@ == first_piece(line@),
{
    let l = str_to_chars(line);
    let k = find_char_from(l.as_slice(), '-', 0);
    proof {
        assert(l@.skip(0) =~= l@);
    }
    let first = copy_range(l.as_slice(), 0, k);
    proof {
        assert(first@ =~= first_piece(l@));
    }
    chars_to_string(first.as_slice())
}

/// The toolchains that the output of `rustup toolchain list` names.
pub fn toolchains_from_output(output: &str) -> (r: Vec<String>)
    ensures
        strings_view(r@) == toolchains_of_lines(lines_of(output@)),
{
    let lines = output_lines(output);
    let ghost lv = strings_view(lines@);
    let mut out: Vec<String> = Vec::new();
    let mut i: usize = 0;
    while i < lines.len()
        invariant
            i <= lines@.len(),
            lv == strings_view(lines@),
            strings_view(out@) == toolchains_of_lines(lv.take(i as int)),
        decreases lines.len() - i,
    {
        let ghost before = out@;
        out.push(first_piece_of(lines[i].as_str()));
        proof {
            assert(lv[i as int] == lines@[i as int]@);
            assert(strings_view(out@) =~= strings_view(before).push(first_piece(lv[i as int])));
            assert(toolchains_of_lines(lv.take(i + 1)) =~= toolchains_of_lines(lv.take(i as int)).push(
                first_piece(lv[i as int]),
            ));
        }
        i = i + 1;
    }
    proof {
        assert(lv.take(lv.len() as int) =~= lv);
    }
    out
}

/// Whether every line of the output of `rustup component list
/// --installed` names a component.
pub fn component_output_ok(output: &str) -> (r: bool)
    ensures
        r == component_lines_ok(lines_of(output@)),
{
    let lines = output_lines(output);
    let ghost lv = strings_view(lines@);
    let mut i: usize = 0;
    while i < lines.len()
        invariant
            i <= lines@.len(),
            lv == strings_view(lines@),
            lv == lines_of(output@),
            forall|j: int| 0 <= j < i ==> component_line_ok(#[trigger] lv[j]),
        decreases lines.len() - i,
    {
        let l = str_to_chars(lines[i].as_str());
        let k = find_char_from(l.as_slice(), '-', 0);
        proof {
            assert(l@.skip(0) =~= l@);
            assert(lv[i as int] == l@);
        }
        let first = first_piece_of(lines[i].as_str());
        let fs = first.as_str();
        let single = str_eq(fs, "cargo") || str_eq(fs, "rustfmt") || str_eq(fs, "clippy") || str_eq(fs, "miri")
            || str_eq(fs, "rls") || str_eq(fs, "rustc");
        if !single && k >= l.len() {
            proof {
                assert(fs@ == first_piece(lv[i as int]));
                assert(!component_line_ok(lv[i as int]));
            }
            return false;
        }
        proof {
            assert(fs@ == first_piece(lv[i as int]));
        }
        i = i + 1;
    }
    true
}

/// Append to `val` the components that the output of `rustup component
/// list --installed` names for `toolchain`, as `<toolchain>/<component>`.
pub fn components_from_output(output: &str, toolchain: &str, val: &mut Vec<String>)
    requires
        component_lines_ok(lines_of(output@)),
    ensures
        strings_view(final(val)@) == strings_view(old(val)@) + components_of_lines(lines_of(output@), toolchain@),
{
    let lines = output_lines(output);
    let ghost lv = strings_view(lines@);
    let ghost start = strings_view(val@);
    let mut i: usize = 0;
    proof {
        assert(strings_view(val@) =~= start + components_of_lines(lv.take(0), toolchain@));
    }
    while i < lines.len()
        invariant
            i <= lines@.len(),
            lv == strings_view(lines@),
            lv == lines_of(output@),
            component_lines_ok(lv),
            strings_view(val@) == start + components_of_lines(lv.take(i as int), toolchain@),
        decreases lines.len() - i,
    {
        proof {
            assert(lv[i as int] == lines@[i as int]@);
            assert(component_line_ok(lv[i as int]));
        }
        install_components(lines[i].as_str(), toolchain, val);
        proof {
            assert(components_of_lines(lv.take(i + 1), toolchain@) =~= components_of_lines(lv.take(i as int), toolchain@).push(
                component_of_line(lv[i as int], toolchain@),
            ));
        }
        i = i + 1;
    }
    proof {
        assert(lv.take(lv.len() as int) =~= lv);
    }
}

/// Append `prefix` followed by each of `names` to `lines`.
fn push_prefixed(lines: &mut Vec<String>, prefix: &str, names: &Vec<String>)
    ensures
        strings_view(final(lines)@) == strings_view(old(lines)@) + prefixed(prefix@, strings_view(names@)),
{
    let ghost start = strings_view(lines@);
    let ghost nv = strings_view(names@);
    let mut i: usize = 0;
    proof {
        assert(strings_view(lines@) =~= start + prefixed(prefix@, nv.take(0)));
    }
    while i < names.len()
        invariant
            i <= names@.len(),
            nv == strings_view(names@),
            strings_view(lines@) == start + prefixed(prefix@, nv.take(i as int)),
        decreases names.len() - i,
    {
        let ghost before = lines@;
        lines.push(crate::text::concat_str(prefix, names[i].as_str()));
        proof {
            assert(nv[i as int] == names@[i as int]@);
            assert(strings_view(lines@) =~= strings_view(before).push(prefix@ + nv[i as int]));
            assert(prefixed(prefix@, nv.take(i + 1)) =~= prefixed(prefix@, nv.take(i as int)).push(prefix@ + nv[i as int]));
        }
        i = i + 1;
    }
    proof {
        assert(nv.take(nv.len() as int) =~= nv);
    }
}

impl Rustup {
    /// The installed packages, from the installed toolchains and the
    /// installed components (`<toolchain>/<component>`): `toolchain/<t>`
    /// and `component/<c>`, each package once.
    pub fn get_all_installed_packages(&self, toolchains: &Vec<String>, components: &Vec<String>) -> (r: Vec<Package>)
        ensures
            packages_view(r@) == installed_rustup_packages(strings_view(toolchains@), strings_view(components@)),
            distinct_packages(packages_view(r@)),
    {
        let mut lines: Vec<String> = Vec::new();
        proof {
            assert(strings_view(lines@) =~= Seq::<Seq<char>>::empty());
        }
        push_prefixed(&mut lines, "toolchain/", toolchains);
        push_prefixed(&mut lines, "component/", components);
        proof {
            assert(lines@.map_values(|l: String| l@) =~= strings_view(lines@));
            assert(strings_view(lines@) =~= prefixed("toolchain/"@, strings_view(toolchains@)) + prefixed(
                "component/"@,
                strings_view(components@),
            ));
        }
        Package::from_lines(&lines)
    }

    /// The explicitly installed packages: all installed packages.
    pub fn get_explicitly_installed_packages(&self, toolchains: &Vec<String>, components: &Vec<String>) -> (r: Vec<Package>)
        ensures
            packages_view(r@) == installed_rustup_packages(strings_view(toolchains@), strings_view(components@)),
            distinct_packages(packages_view(r@)),
    {
        self.get_all_installed_packages(toolchains, components)
    }
}

} // verus!

verus! {

/// A rustup package as named in a group file: a toolchain, or a component
/// with the toolchain it belongs to.
#[derive(Debug)]
pub enum RustupPackageId {
    Toolchain(String),
    /// Toolchain, component.
    Component(String, String),
}

/// A rustup package identifier seen as its kind (`0` toolchain, `1`
/// component) and its two names (the second empty for a toolchain).
pub type RustupIdView = (int, Seq<char>, Seq<char>);

impl View for RustupPackageId {
    type V = RustupIdView;

    open spec fn view(&self) -> RustupIdView {
        match self {
            RustupPackageId::Toolchain(t) => (0, t@, seq![]),
            RustupPackageId::Component(t, c) => (1, t@, c@),
        }
    }
}

impl Clone for RustupPackageId {
    fn clone(&self) -> (r: Self)
        ensures
            r@ == self@,
    {
        match self {
            RustupPackageId::Toolchain(t) => RustupPackageId::Toolchain(t.clone()),
            RustupPackageId::Component(t, c) => RustupPackageId::Component(t.clone(), c.clone()),
        }
    }
}

/// The identifiers of a sequence, each seen as its view.
pub open spec fn ids_view(v: Seq<RustupPackageId>) -> Seq<RustupIdView> {
    v.map_values(|p: RustupPackageId| p@)
}

/// The derived order of identifiers: toolchains before components, then by
/// the names in turn.
pub open spec fn id_lt(a: RustupIdView, b: RustupIdView) -> bool {
    a.0 < b.0 || (a.0 == b.0 && (crate::order::seq_lt(a.1, b.1) || (a.1 == b.1 && crate::order::seq_lt(a.2, b.2))))
}

/// Each identifier comes strictly before the ones after it.
pub open spec fn strictly_sorted_ids(v: Seq<RustupIdView>) -> bool {
    forall|i: int, j: int| 0 <= i < j < v.len() ==> id_lt(v[i], v[j])
}

pub proof fn lemma_id_lt_transitive(a: RustupIdView, b: RustupIdView, c: RustupIdView)
    requires
        id_lt(a, b),
        id_lt(b, c),
    ensures
        id_lt(a, c),
{
    if a.0 == b.0 && b.0 == c.0 {
        if crate::order::seq_lt(a.1, b.1) && crate::order::seq_lt(b.1, c.1) {
            crate::order::lemma_seq_lt_transitive(a.1, b.1, c.1);
        } else if a.1 == b.1 && b.1 == c.1 {
            crate::order::lemma_seq_lt_transitive(a.2, b.2, c.2);
        }
    }
}

pub proof fn lemma_id_lt_total(a: RustupIdView, b: RustupIdView)
    requires
        a.0 == 0 || a.0 == 1,
        b.0 == 0 || b.0 == 1,
        a.0 == 0 ==> a.2.len() == 0,
        b.0 == 0 ==> b.2.len() == 0,
    ensures
        a == b || id_lt(a, b) || id_lt(b, a),
{
    crate::order::lemma_seq_lt_total(a.1, b.1);
    crate::order::lemma_seq_lt_total(a.2, b.2);
    if a.0 == 0 && b.0 == 0 {
        assert(a.2 =~= b.2);
    }
}

/// A view that an identifier can have.
pub open spec fn id_shape(a: RustupIdView) -> bool {
    &&& (a.0 == 0 || a.0 == 1)
    &&& (a.0 == 0 ==> a.2.len() == 0)
}

/// The text an identifier is shown as: the toolchain, or
/// `<toolchain>/<component>`.
pub open spec fn id_text(a: RustupIdView) -> Seq<char> {
    if a.0 == 0 {
        a.1
    } else {
        a.1 + seq!['/'] + a.2
    }
}

impl RustupPackageId {
    /// The identifier that `value` names: `toolchain/<toolchain>`, or
    /// `component/<toolchain>/<component>`; each part is split at the first
    /// `/`.
    pub fn try_from(value: &str) -> (r: Option<Self>)
        ensures
            match r {
                Some(id) => id_of_text(value@) == Some(id@),
                None => id_of_text(value@) is None,
            },
    {
        let v = str_to_chars(value);
        let k = find_char_from(v.as_slice(), '/', 0);
        proof {
            assert(v@.skip(0) =~= v@);
        }
        if k >= v.len() {
            return None;
        }
        let kind = chars_to_string(copy_range(v.as_slice(), 0, k).as_slice());
        let rest = copy_range(v.as_slice(), k + 1, v.len());
        proof {
            assert(kind@ =~= v@.take(k as int));
            assert(rest@ =~= v@.skip(k + 1));
        }
        if str_eq(kind.as_str(), "toolchain") {
            return Some(RustupPackageId::Toolchain(chars_to_string(rest.as_slice())));
        }
        if !str_eq(kind.as_str(), "component") {
            return None;
        }
        let j = find_char_from(rest.as_slice(), '/', 0);
        proof {
            assert(rest@.skip(0) =~= rest@);
        }
        if j >= rest.len() {
            return None;
        }
        let toolchain = chars_to_string(copy_range(rest.as_slice(), 0, j).as_slice());
        let component = chars_to_string(copy_range(rest.as_slice(), j + 1, rest.len()).as_slice());
        proof {
            assert(rest@.subrange(0, j as int) =~= rest@.take(j as int));
            assert(rest@.subrange(j + 1, rest@.len() as int) =~= rest@.skip(j + 1));
        }
        Some(RustupPackageId::Component(toolchain, component))
    }

    /// The text the identifier is shown as.
    pub fn to_string(&self) -> (r: String)
        ensures
            r@ == id_text(self@),
    {
        match self {
            RustupPackageId::Toolchain(t) => t.clone(),
            RustupPackageId::Component(t, c) => {
                let mut out = str_to_chars(t.as_str());
                out.push('/');
                crate::text::push_str_chars(&mut out, c.as_str());
                chars_to_string(out.as_slice())
            },
        }
    }
}

/// The identifier a text names, if any.
pub open spec fn id_of_text(value: Seq<char>) -> Option<RustupIdView> {
    let k = find_char(value, '/');
    if k >= value.len() {
        None
    } else {
        let kind = value.take(k);
        let rest = value.skip(k + 1);
        if kind == "toolchain"@ {
            Some((0, rest, seq![]))
        } else if kind == "component"@ {
            let j = find_char(rest, '/');
            if j >= rest.len() {
                None
            } else {
                Some((1, rest.take(j), rest.skip(j + 1)))
            }
        } else {
            None
        }
    }
}

/// Whether `a` comes before `b` in the derived order.
pub fn id_less(a: &RustupPackageId, b: &RustupPackageId) -> (r: bool)
    ensures
        r == id_lt(a@, b@),
{
    let (ak, a1, a2): (u8, &String, Option<&String>) = match a {
        RustupPackageId::Toolchain(t) => (0, t, None),
        RustupPackageId::Component(t, c) => (1, t, Some(c)),
    };
    let (bk, b1, b2): (u8, &String, Option<&String>) = match b {
        RustupPackageId::Toolchain(t) => (0, t, None),
        RustupPackageId::Component(t, c) => (1, t, Some(c)),
    };
    if ak != bk {
        return ak < bk;
    }
    let a1c = str_to_chars(a1.as_str());
    let b1c = str_to_chars(b1.as_str());
    if crate::order::chars_lt(a1c.as_slice(), b1c.as_slice()) {
        return true;
    }
    if !crate::text::chars_eq(a1c.as_slice(), b1c.as_slice()) {
        return false;
    }
    match (a2, b2) {
        (Some(x), Some(y)) => {
            let xc = str_to_chars(x.as_str());
            let yc = str_to_chars(y.as_str());
            crate::order::chars_lt(xc.as_slice(), yc.as_slice())
        },
        _ => {
            proof {
                crate::order::lemma_seq_lt_irreflexive(Seq::<char>::empty());
            }
            false
        },
    }
}

/// Whether two identifiers are the same.
pub fn id_eq(a: &RustupPackageId, b: &RustupPackageId) -> (r: bool)
    ensures
        r == (a@ == b@),
{
    match (a, b) {
        (RustupPackageId::Toolchain(x), RustupPackageId::Toolchain(y)) => str_eq(x.as_str(), y.as_str()),
        (RustupPackageId::Component(x1, x2), RustupPackageId::Component(y1, y2)) => {
            str_eq(x1.as_str(), y1.as_str()) && str_eq(x2.as_str(), y2.as_str())
        },
        _ => false,
    }
}

pub proof fn lemma_view_shape(id: RustupPackageId)
    ensures
        id_shape(id@),
{
}

/// Insert `id` into the sorted set `v`.
pub fn insert_sorted_id(v: &mut Vec<RustupPackageId>, id: RustupPackageId)
    requires
        strictly_sorted_ids(ids_view(old(v)@)),
    ensures
        strictly_sorted_ids(ids_view(final(v)@)),
        ids_view(final(v)@).to_set() == ids_view(old(v)@).to_set().insert(id@),
{
    let ghost ov = ids_view(v@);
    let ghost x = id@;
    let mut p: usize = 0;
    while p < v.len() && id_less(&v[p], &id)
        invariant
            p <= v@.len(),
            ov == ids_view(v@),
            x == id@,
            forall|k: int| 0 <= k < p ==> id_lt(ov[k], x),
        decreases v.len() - p,
    {
        proof {
            assert(ov[p as int] == v@[p as int]@);
        }
        p = p + 1;
    }
    if p < v.len() && id_eq(&v[p], &id) {
        proof {
            assert(ov[p as int] == v@[p as int]@);
            assert(ov.contains(x));
            assert(ov.to_set().insert(x) =~= ov.to_set());
        }
        return;
    }
    proof {
        if p < v@.len() {
            assert(ov[p as int] == v@[p as int]@);
            lemma_view_shape(v@[p as int]);
            lemma_view_shape(id);
            lemma_id_lt_total(ov[p as int], x);
        }
    }
    v.insert(p, id);
    proof {
        let nv = ids_view(v@);
        assert(nv =~= ov.insert(p as int, x));
        assert forall|a: int, b: int| 0 <= a < b < nv.len() implies id_lt(nv[a], nv[b]) by {
            if b < p {
                assert(nv[a] == ov[a] && nv[b] == ov[b]);
            } else if b == p {
                assert(nv[a] == ov[a] && nv[b] == x);
            } else if a == p {
                assert(nv[b] == ov[b - 1]);
                if b - 1 > p {
                    lemma_id_lt_transitive(x, ov[p as int], ov[b - 1]);
                }
            } else if a < p {
                assert(nv[a] == ov[a] && nv[b] == ov[b - 1]);
            } else {
                assert(nv[a] == ov[a - 1] && nv[b] == ov[b - 1]);
            }
        }
        assert forall|e: RustupIdView| nv.to_set().contains(e) <==> ov.to_set().insert(x).contains(e) by {
            if nv.contains(e) {
                let k = choose|k: int| 0 <= k < nv.len() && nv[k] == e;
                if k < p {
                    assert(ov[k] == e);
                } else if k > p {
                    assert(ov[k - 1] == e);
                }
            }
            if ov.contains(e) {
                let k = choose|k: int| 0 <= k < ov.len() && ov[k] == e;
                if k < p {
                    assert(nv[k] == e);
                } else {
                    assert(nv[k + 1] == e);
                }
            }
            if e == x {
                assert(nv[p as int] == e);
            }
        }
        assert(nv.to_set() =~= ov.to_set().insert(x));
    }
}

} // verus!

verus! {

/// Insert each of `from` into the sorted set `into`.
pub fn union_ids_into(into: &mut Vec<RustupPackageId>, from: &Vec<RustupPackageId>)
    requires
        strictly_sorted_ids(ids_view(old(into)@)),
    ensures
        strictly_sorted_ids(ids_view(final(into)@)),
        ids_view(final(into)@).to_set() == ids_view(old(into)@).to_set().union(ids_view(from@).to_set()),
{
    let ghost start = ids_view(into@).to_set();
    let ghost fv = ids_view(from@);
    let mut i: usize = 0;
    proof {
        assert(fv.take(0).to_set() =~= Set::<RustupIdView>::empty());
        assert(start.union(fv.take(0).to_set()) =~= start);
    }
    while i < from.len()
        invariant
            i <= from@.len(),
            fv == ids_view(from@),
            strictly_sorted_ids(ids_view(into@)),
            ids_view(into@).to_set() == start.union(fv.take(i as int).to_set()),
        decreases from.len() - i,
    {
        insert_sorted_id(into, from[i].clone());
        proof {
            assert(fv[i as int] == from@[i as int]@);
            assert(fv.take(i + 1) =~= fv.take(i as int) + seq![fv[i as int]]);
            Seq::lemma_to_set_insert_commutes(fv.take(i as int), fv[i as int]);
            assert(ids_view(into@).to_set() =~= start.union(fv.take(i + 1).to_set()));
        }
        i = i + 1;
    }
    proof {
        assert(fv.take(fv.len() as int) =~= fv);
    }
}

} // verus!

verus! {

/// The first ` `-separated piece of `line`.
pub open spec fn first_word_piece(line: Seq<char>) -> Seq<char> {
    line.take(find_char(line, ' '))
}

/// The toolchains that `rustup toolchain list` prints: the first
/// ` `-separated piece of each line.
pub fn toolchains_of_list(output: &str) -> (r: Vec<String>)
    ensures
        strings_view(r@) == lines_of(output@).map_values(|l: Seq<char>| first_word_piece(l)),
{
    let lines = output_lines(output);
    let ghost lv = strings_view(lines@);
    let mut out: Vec<String> = Vec::new();
    let mut i: usize = 0;
    while i < lines.len()
        invariant
            i <= lines@.len(),
            lv == strings_view(lines@),
            strings_view(out@) == lv.take(i as int).map_values(|l: Seq<char>| first_word_piece(l)),
        decreases lines.len() - i,
    {
        let l = str_to_chars(lines[i].as_str());
        let k = find_char_from(l.as_slice(), ' ', 0);
        proof {
            assert(l@.skip(0) =~= l@);
        }
        let piece = chars_to_string(copy_range(l.as_slice(), 0, k).as_slice());
        let ghost before = out@;
        out.push(piece);
        proof {
            assert(lv[i as int] == l@);
            assert(piece@ =~= first_word_piece(lv[i as int]));
            assert(strings_view(out@) =~= strings_view(before).push(piece@));
            assert(lv.take(i + 1).map_values(|l: Seq<char>| first_word_piece(l)) =~= lv.take(i as int).map_values(
                |l: Seq<char>| first_word_piece(l),
            ).push(first_word_piece(lv[i as int])));
        }
        i = i + 1;
    }
    proof {
        assert(lv.take(lv.len() as int) =~= lv);
    }
    out
}

/// The identifiers found for the first `n` toolchains: each toolchain,
/// then, for each line of its component list, the component of that name
/// in that toolchain.
pub open spec fn query_ids(ts: Seq<Seq<char>>, outs: Seq<Seq<char>>, n: int) -> Seq<RustupIdView>
    decreases n,
{
    if n <= 0 {
        seq![]
    } else {
        let t = ts[n - 1];
        query_ids(ts, outs, n - 1) + seq![(0int, t, Seq::<char>::empty())] + lines_of(outs[n - 1]).map_values(
            |c: Seq<char>| (1int, t, c),
        )
    }
}

/// The installed identifiers, from the toolchains and, for each of them,
/// the output of listing its installed components: every toolchain, and
/// for every line of a toolchain's list the component of that name in that
/// toolchain; as a sorted set.
pub fn installed_ids(toolchains: &Vec<String>, component_outputs: &Vec<String>) -> (r: Vec<RustupPackageId>)
    requires
        component_outputs@.len() == toolchains@.len(),
    ensures
        strictly_sorted_ids(ids_view(r@)),
        ids_view(r@).to_set() == query_ids(strings_view(toolchains@), strings_view(component_outputs@), toolchains@.len() as int).to_set(),
{
    let ghost ts = strings_view(toolchains@);
    let ghost os = strings_view(component_outputs@);
    let mut out: Vec<RustupPackageId> = Vec::new();
    let mut i: usize = 0;
    proof {
        assert(ids_view(out@).to_set() =~= Set::<RustupIdView>::empty());
        assert(query_ids(ts, os, 0).to_set() =~= Set::<RustupIdView>::empty());
    }
    while i < toolchains.len()
        invariant
            i <= toolchains@.len(),
            component_outputs@.len() == toolchains@.len(),
            ts == strings_view(toolchains@),
            os == strings_view(component_outputs@),
            strictly_sorted_ids(ids_view(out@)),
            ids_view(out@).to_set() == query_ids(ts, os, i as int).to_set(),
        decreases toolchains.len() - i,
    {
        let t = &toolchains[i];
        let ghost before = ids_view(out@).to_set();
        let tid = RustupPackageId::Toolchain(t.clone());
        let ghost tidv = tid@;
        insert_sorted_id(&mut out, tid);
        let ghost mid = ids_view(out@).to_set();
        let lines = output_lines(component_outputs[i].as_str());
        let ghost lv = strings_view(lines@);
        let ghost tv = t@;
        let ghost made = lv.map_values(|c: Seq<char>| (1int, tv, c));
        let mut j: usize = 0;
        proof {
            assert(ts[i as int] == tv);
            assert(os[i as int] == component_outputs@[i as int]@);
            assert(made.take(0).to_set() =~= Set::<RustupIdView>::empty());
            assert(mid =~= mid.union(made.take(0).to_set()));
        }
        while j < lines.len()
            invariant
                j <= lines@.len(),
                lv == strings_view(lines@),
                made == lv.map_values(|c: Seq<char>| (1int, tv, c)),
                tv == t@,
                strictly_sorted_ids(ids_view(out@)),
                ids_view(out@).to_set() == mid.union(made.take(j as int).to_set()),
            decreases lines.len() - j,
        {
            let id = RustupPackageId::Component(t.clone(), lines[j].clone());
            proof {
                assert(lv[j as int] == lines@[j as int]@);
                assert(id@ == made[j as int]);
            }
            insert_sorted_id(&mut out, id);
            proof {
                assert(made.take(j + 1) =~= made.take(j as int) + seq![made[j as int]]);
                Seq::lemma_to_set_insert_commutes(made.take(j as int), made[j as int]);
                assert(ids_view(out@).to_set() =~= mid.union(made.take(j + 1).to_set()));
            }
            j = j + 1;
        }
        proof {
            assert(made.take(made.len() as int) =~= made);
            let q = query_ids(ts, os, i as int);
            let t0: RustupIdView = (0int, tv, Seq::<char>::empty());
            assert(tidv == t0) by {
                assert(tidv.2 =~= Seq::<char>::empty());
            }
            assert(lines_of(os[i as int]) == lv);
            assert(query_ids(ts, os, i + 1) == q + seq![t0] + made);
            vstd::seq_lib::seq_to_set_distributes_over_add(q + seq![t0], made);
            Seq::lemma_to_set_insert_commutes(q, t0);
            assert(ids_view(out@).to_set() =~= query_ids(ts, os, i + 1).to_set());
        }
        i = i + 1;
    }
    out
}

/// The command that installs the package an identifier names.
pub open spec fn id_install_command(a: RustupIdView) -> Seq<Seq<char>> {
    if a.0 == 0 {
        seq!["rustup"@, "toolchain"@, "install"@, a.1]
    } else {
        seq!["rustup"@, "component"@, "add"@, a.2, "--toolchain"@, a.1]
    }
}

/// The command that removes the package an identifier names.
pub open spec fn id_remove_command(a: RustupIdView) -> Seq<Seq<char>> {
    if a.0 == 0 {
        seq!["rustup"@, "toolchain"@, "uninstall"@, a.1]
    } else {
        seq!["rustup"@, "component"@, "remove"@, a.2, "--toolchain"@, a.1]
    }
}

/// One command per identifier, in order: install a toolchain (`rustup
/// toolchain install <toolchain>`) or a component (`rustup component add
/// <component> --toolchain <toolchain>`); where `install` is not set,
/// remove it instead (`toolchain uninstall`, `component remove`).
pub fn id_commands(ids: &Vec<RustupPackageId>, install: bool) -> (r: Vec<Vec<String>>)
    ensures
        commands_view(r@) == ids_view(ids@).map_values(
            |a: RustupIdView| if install {
                id_install_command(a)
            } else {
                id_remove_command(a)
            },
        ),
{
    let ghost iv = ids_view(ids@);
    let ghost f = |a: RustupIdView| if install {
        id_install_command(a)
    } else {
        id_remove_command(a)
    };
    let mut out: Vec<Vec<String>> = Vec::new();
    let mut i: usize = 0;
    while i < ids.len()
        invariant
            i <= ids@.len(),
            iv == ids_view(ids@),
            f == (|a: RustupIdView| if install {
                id_install_command(a)
            } else {
                id_remove_command(a)
            }),
            commands_view(out@) == iv.take(i as int).map_values(f),
        decreases ids.len() - i,
    {
        let mut cmd = command("rustup");
        match &ids[i] {
            RustupPackageId::Toolchain(t) => {
                if install {
                    push_switches(&mut cmd, &["toolchain", "install"]);
                } else {
                    push_switches(&mut cmd, &["toolchain", "uninstall"]);
                }
                push_word(&mut cmd, t.as_str());
            },
            RustupPackageId::Component(t, c) => {
                if install {
                    push_switches(&mut cmd, &["component", "add"]);
                } else {
                    push_switches(&mut cmd, &["component", "remove"]);
                }
                push_word(&mut cmd, c.as_str());
                push_word(&mut cmd, "--toolchain");
                push_word(&mut cmd, t.as_str());
            },
        }
        let ghost before = out@;
        out.push(cmd);
        proof {
            assert(iv[i as int] == ids@[i as int]@);
            assert(strings_view(cmd@) =~= f(iv[i as int]));
            assert(commands_view(out@) =~= commands_view(before).push(strings_view(cmd@)));
            assert(iv.take(i + 1).map_values(f) =~= iv.take(i as int).map_values(f).push(f(iv[i as int])));
        }
        i = i + 1;
    }
    proof {
        assert(iv.take(iv.len() as int) =~= iv);
    }
    out
}

} // verus!

verus! {

/// Sorting rustup packages into toolchains and components loses none and
/// adds none: every package is one of the two.
pub proof fn lemma_kinds_partition(rs: Seq<RustupView>)
    ensures
        toolchains_of(rs).len() + components_of(rs).len() == rs.len(),
    decreases rs.len(),
{
    let tp = |p: RustupView| is_toolchain(p);
    let cp = |p: RustupView| is_component(p);
    if rs.len() > 0 {
        lemma_kinds_partition(rs.drop_last());
        assert(rs =~= rs.drop_last().push(rs.last()));
        rs.drop_last().lemma_filter_push(rs.last(), tp);
        rs.drop_last().lemma_filter_push(rs.last(), cp);
    } else {
        assert(rs.filter(tp) =~= Seq::<RustupView>::empty()) by {
            reveal(Seq::filter);
        }
        assert(rs.filter(cp) =~= Seq::<RustupView>::empty()) by {
            reveal(Seq::filter);
        }
    }
}

} // verus!

verus! {

/// The command that installs the package `p`, or why it cannot be
/// installed: it names no repository, a repository other than `toolchain`
/// or `component`, or a component without `/`. A component's toolchain is
/// the part of the name before the first `/`, the component the part after
/// it up to any further `/`.
pub open spec fn install_step(p: PackageView) -> Result<Seq<Seq<char>>, (int, Seq<char>)> {
    match p.1 {
        None => Err((0, seq![])),
        Some(repo) => if repo == "toolchain"@ {
            Ok(seq!["rustup"@] + install_switches(Repotype::Toolchain) + seq![p.0])
        } else if repo == "component"@ {
            let k = find_char(p.0, '/');
            if k >= p.0.len() {
                Err((2, seq![]))
            } else {
                let rest = p.0.skip(k + 1);
                Ok(seq!["rustup"@] + install_switches(Repotype::Component) + seq![p.0.take(k), rest.take(find_char(rest, '/'))])
            }
        } else {
            Err((1, repo))
        },
    }
}

/// The commands that install the packages one by one, up to the first
/// package that cannot be installed, and that package's error.
pub open spec fn install_plan(ps: Seq<PackageView>) -> (Seq<Seq<Seq<char>>>, Option<(int, Seq<char>)>)
    decreases ps.len(),
{
    if ps.len() == 0 {
        (seq![], None)
    } else {
        let prev = install_plan(ps.drop_last());
        if prev.1 is Some {
            prev
        } else {
            match install_step(ps.last()) {
                Ok(c) => (prev.0.push(c), None),
                Err(e) => (prev.0, Some(e)),
            }
        }
    }
}

pub proof fn lemma_install_plan_stops(ps: Seq<PackageView>, k: int)
    requires
        0 <= k <= ps.len(),
        install_plan(ps.take(k)).1 is Some,
    ensures
        install_plan(ps) == install_plan(ps.take(k)),
    decreases ps.len() - k,
{
    if k < ps.len() {
        assert(ps.take(k + 1).drop_last() =~= ps.take(k));
        lemma_install_plan_stops(ps, k + 1);
    } else {
        assert(ps.take(k) =~= ps);
    }
}

/// The command that installs `p`, or why it cannot be installed.
fn install_command(p: &Package) -> (r: Result<Vec<String>, RustupError>)
    ensures
        match install_step(p@) {
            Ok(c) => r matches Ok(cmd) && strings_view(cmd@) == c,
            Err(k) => r matches Err(e) && error_kind(e) == k,
        },
{
    let repo = match &p.repo {
        Some(r) => r,
        None => return Err(RustupError::MissingRepo),
    };
    if str_eq(repo.as_str(), "toolchain") {
        let mut cmd = command(BINARY);
        push_switches(&mut cmd, get_install_switches(Repotype::Toolchain));
        push_word(&mut cmd, p.name.as_str());
        return Ok(cmd);
    }
    if !str_eq(repo.as_str(), "component") {
        proof {
            reveal_strlit("toolchain");
            reveal_strlit("component");
        }
        return Err(RustupError::UnknownRepotype(repo.clone()));
    }
    let n = str_to_chars(p.name.as_str());
    let k = find_char_from(n.as_slice(), '/', 0);
    proof {
        assert(n@.skip(0) =~= n@);
    }
    if k >= n.len() {
        return Err(RustupError::MissingComponent);
    }
    assert(n@.len() == n.len());
    let k1: usize = k + 1;
    let j = find_char_from(n.as_slice(), '/', k1);
    let toolchain = chars_to_string(copy_range(n.as_slice(), 0, k).as_slice());
    let component = chars_to_string(copy_range(n.as_slice(), k1, j).as_slice());
    proof {
        let rest = n@.skip(k1 as int);
        crate::text::lemma_find_char_bounds(rest, '/');
        assert(toolchain@ =~= n@.take(k as int));
        assert(component@ =~= rest.take(find_char(rest, '/')));
    }
    let mut cmd = command(BINARY);
    push_switches(&mut cmd, get_install_switches(Repotype::Component));
    push_word(&mut cmd, toolchain.as_str());
    push_word(&mut cmd, component.as_str());
    Ok(cmd)
}

} // verus!
