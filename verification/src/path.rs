//! Paths as text: the components a path is made of, joining a component
//! onto a path, relative paths, and the locations of pacdef's own files.

use vstd::prelude::*;
use crate::text::{
    chars_eq, chars_to_string, copy_range, find_char, find_char_from, lemma_find_char_bounds,
    str_to_chars,
};

verus! {

/// The pieces of `s` between the occurrences of `c` (`str::split`).
pub open spec fn split_on(s: Seq<char>, c: char) -> Seq<Seq<char>>
    decreases s.len(),
{
    let i = find_char(s, c);
    proof {
        lemma_find_char_bounds(s, c);
    }
    if i >= s.len() {
        seq![s]
    } else {
        seq![s.take(i)] + split_on(s.skip(i + 1), c)
    }
}

/// Whether a piece between separators names a component of its own: it
/// is neither empty nor `.`.
pub open spec fn is_normal_piece(p: Seq<char>) -> bool {
    p.len() > 0 && p != seq!['.']
}

/// The pieces that name components of their own, in order.
pub open spec fn normal_pieces(segs: Seq<Seq<char>>) -> Seq<Seq<char>>
    decreases segs.len(),
{
    if segs.len() == 0 {
        seq![]
    } else {
        let prev = normal_pieces(segs.drop_last());
        if is_normal_piece(segs.last()) {
            prev.push(segs.last())
        } else {
            prev
        }
    }
}

/// The components of a path (`Path::components`): the root `/` of an
/// absolute path, a `.` at the start of a relative path, and then every
/// non-empty piece between `/` separators other than `.`.
pub open spec fn path_components(p: Seq<char>) -> Seq<Seq<char>> {
    let segs = split_on(p, '/');
    if p.len() > 0 && p[0] == '/' {
        seq![seq!['/']] + normal_pieces(segs)
    } else if segs[0] == seq!['.'] {
        seq![seq!['.']] + normal_pieces(segs.drop_first())
    } else {
        normal_pieces(segs)
    }
}

/// Joining `c` onto `base` (`PathBuf::push`): an absolute `c` replaces
/// `base`; otherwise a `/` separates the two unless `base` is empty or
/// already ends in one.
pub open spec fn push_path(base: Seq<char>, c: Seq<char>) -> Seq<char> {
    if c.len() > 0 && c[0] == '/' {
        c
    } else if base.len() == 0 {
        c
    } else if base.last() == '/' {
        base + c
    } else {
        base + seq!['/'] + c
    }
}

/// The path made by pushing each component in turn onto an empty path
/// (`PathBuf::from_iter`).
pub open spec fn join_path(cs: Seq<Seq<char>>) -> Seq<char>
    decreases cs.len(),
{
    if cs.len() == 0 {
        seq![]
    } else {
        push_path(join_path(cs.drop_last()), cs.last())
    }
}

/// The pieces joined with `/` between them.
pub open spec fn join_with_slash(cs: Seq<Seq<char>>) -> Seq<char>
    decreases cs.len(),
{
    if cs.len() <= 1 {
        if cs.len() == 0 {
            seq![]
        } else {
            cs[0]
        }
    } else {
        join_with_slash(cs.drop_last()) + seq!['/'] + cs.last()
    }
}

/// The components of `base` agree with those of `full` as far as both go.
pub open spec fn agrees_with_base(full: Seq<char>, base: Seq<char>) -> bool {
    let f = path_components(full);
    let b = path_components(base);
    forall|i: int| 0 <= i < f.len() && 0 <= i < b.len() ==> f[i] == b[i]
}

/// The components of `full` that follow those it shares with `base`.
pub open spec fn relative_components(full: Seq<char>, base: Seq<char>) -> Seq<Seq<char>> {
    let f = path_components(full);
    let b = path_components(base);
    if b.len() <= f.len() {
        f.skip(b.len() as int)
    } else {
        seq![]
    }
}

pub proof fn lemma_split_on_step(s: Seq<char>, c: char, i: int)
    requires
        0 <= i <= s.len(),
    ensures
        split_on(s.skip(i), c) == ({
            let t = s.skip(i);
            let k = find_char(t, c);
            if k >= t.len() {
                seq![t]
            } else {
                seq![t.take(k)] + split_on(t.skip(k + 1), c)
            }
        }),
{
}

/// The pieces of `s` between the occurrences of `c`.
pub fn split_chars(s: &[char], c: char) -> (r: Vec<Vec<char>>)
    ensures
        r@.map_values(|l: Vec<char>| l@) == split_on(s@, c),
        r@.len() >= 1,
{
    let mut out: Vec<Vec<char>> = Vec::new();
    let mut pos: usize = 0;
    proof {
        assert(s@.skip(0) =~= s@);
        assert(out@.map_values(|l: Vec<char>| l@) =~= Seq::<Seq<char>>::empty());
    }
    loop
        invariant
            pos <= s@.len(),
            split_on(s@, c) == out@.map_values(|l: Vec<char>| l@) + split_on(s@.skip(pos as int), c),
        decreases s@.len() - pos,
    {
        let k = find_char_from(s, c, pos);
        let ghost t = s@.skip(pos as int);
        proof {
            lemma_split_on_step(s@, c, pos as int);
            lemma_find_char_bounds(t, c);
        }
        let piece = copy_range(s, pos, k);
        let ghost old_out = out@;
        out.push(piece);
        proof {
            assert(out@.map_values(|l: Vec<char>| l@) =~= old_out.map_values(|l: Vec<char>| l@).push(
                piece@,
            ));
            assert(piece@ =~= t.take(k - pos));
        }
        if k >= s.len() {
            proof {
                assert(piece@ =~= t);
                assert(split_on(s@, c) =~= out@.map_values(|l: Vec<char>| l@));
            }
            return out;
        }
        proof {
            assert(t.skip(k - pos + 1) =~= s@.skip(k + 1));
        }
        pos = k + 1;
    }
}

/// The components of `p` (`Path::components`), each as text.
pub fn components(p: &str) -> (r: Vec<String>)
    ensures
        r@.map_values(|c: String| c@) == path_components(p@),
{
    let chars = str_to_chars(p);
    let segs = split_chars(chars.as_slice(), '/');
    let ghost sv = segs@.map_values(|l: Vec<char>| l@);
    let mut out: Vec<String> = Vec::new();
    let dot: Vec<char> = vec!['.'];
    let mut i: usize = 0;
    let ghost rest: Seq<Seq<char>>;
    if chars.len() > 0 && chars[0] == '/' {
        let root: Vec<char> = vec!['/'];
        out.push(chars_to_string(root.as_slice()));
        proof {
            rest = sv;
            assert(root@ =~= seq!['/']);
            assert(out@.map_values(|c: String| c@) =~= seq![seq!['/']]);
        }
    } else if chars_eq(segs[0].as_slice(), dot.as_slice()) {
        out.push(chars_to_string(dot.as_slice()));
        i = 1;
        proof {
            rest = sv.drop_first();
            assert(dot@ =~= seq!['.']);
            assert(out@.map_values(|c: String| c@) =~= seq![seq!['.']]);
        }
    } else {
        proof {
            rest = sv;
        }
    }
    let ghost head = out@.map_values(|c: String| c@);
    let ghost i0 = i as int;
    proof {
        assert(sv[0] == segs@[0]@);
        assert(dot@ =~= seq!['.']);
        assert(sv.skip(i0) =~= rest);
        assert(rest.take(0) =~= Seq::<Seq<char>>::empty());
        assert(head =~= head + normal_pieces(rest.take(0)));
    }
    while i < segs.len()
        invariant
            1 <= segs@.len(),
            i0 <= i <= segs@.len(),
            0 <= i0 <= 1,
            dot@ == seq!['.'],
            sv == segs@.map_values(|l: Vec<char>| l@),
            rest == sv.skip(i0),
            out@.map_values(|c: String| c@) == head + normal_pieces(rest.take(i - i0)),
        decreases segs.len() - i,
    {
        let ghost k = i - i0;
        proof {
            assert(rest.take(k + 1).drop_last() =~= rest.take(k));
            assert(rest.take(k + 1).last() == segs@[i as int]@);
        }
        let seg = &segs[i];
        if seg.len() > 0 && !chars_eq(seg.as_slice(), dot.as_slice()) {
            let ghost before = out@;
            out.push(chars_to_string(seg.as_slice()));
            proof {
                assert(is_normal_piece(seg@));
                assert(out@.map_values(|c: String| c@) =~= before.map_values(|c: String| c@).push(
                    seg@,
                ));
                assert(normal_pieces(rest.take(k + 1)) == normal_pieces(rest.take(k)).push(seg@));
                assert(out@.map_values(|c: String| c@) =~= head + normal_pieces(rest.take(k + 1)));
            }
        } else {
            proof {
                assert(!is_normal_piece(seg@));
                assert(normal_pieces(rest.take(k + 1)) == normal_pieces(rest.take(k)));
            }
        }
        i = i + 1;
    }
    proof {
        assert(rest.take(rest.len() as int) =~= rest);
        assert(chars@ == p@);
    }
    out
}

/// `comp` joined onto `base` (`PathBuf::push`).
pub fn path_push(base: &str, comp: &str) -> (r: String)
    ensures
        r@ == push_path(base@, comp@),
{
    let b = str_to_chars(base);
    let c = str_to_chars(comp);
    if c.len() > 0 && c[0] == '/' {
        return chars_to_string(c.as_slice());
    }
    if b.len() == 0 {
        return chars_to_string(c.as_slice());
    }
    let mut v = b.clone();
    if b[b.len() - 1] != '/' {
        v.push('/');
    }
    let ghost start = v@;
    let mut i: usize = 0;
    while i < c.len()
        invariant
            i <= c@.len(),
            v@ == start + c@.take(i as int),
        decreases c.len() - i,
    {
        v.push(c[i]);
        i = i + 1;
        assert(v@ =~= start + c@.take(i as int));
    }
    proof {
        assert(c@.take(c@.len() as int) =~= c@);
        assert(b@.last() == b@[b@.len() - 1]);
    }
    chars_to_string(v.as_slice())
}

/// The path of `full` relative to `base`: the components of `full` left
/// once those of `base` are passed, joined into a path. The components of
/// `base` must agree with those of `full` as far as both go.
pub fn get_relative_path(full: &str, base: &str) -> (r: String)
    requires
        agrees_with_base(full@, base@),
    ensures
        r@ == join_path(relative_components(full@, base@)),
{
    let f = components(full);
    let b = components(base);
    let ghost fv = f@.map_values(|c: String| c@);
    let ghost bv = b@.map_values(|c: String| c@);
    let mut i: usize = 0;
    while i < b.len() && i < f.len()
        invariant
            i <= b@.len(),
            i <= f@.len(),
        decreases b.len() - i,
    {
        i = i + 1;
    }
    let mut out = String::new();
    let mut j = i;
    let ghost rel = if b@.len() <= f@.len() { fv.skip(b@.len() as int) } else { Seq::<Seq<char>>::empty() };
    proof {
        assert(rel.take(0) =~= Seq::<Seq<char>>::empty());
        assert(out@ =~= join_path(rel.take(0)));
        if b@.len() > f@.len() {
            assert(i == f@.len());
        } else {
            assert(i == b@.len());
        }
    }
    while j < f.len()
        invariant
            i <= j <= f@.len(),
            b@.len() <= f@.len() ==> i == b@.len(),
            b@.len() > f@.len() ==> i == f@.len(),
            fv == f@.map_values(|c: String| c@),
            rel == (if b@.len() <= f@.len() { fv.skip(b@.len() as int) } else { Seq::<Seq<char>>::empty() }),
            out@ == join_path(rel.take(j - i)),
        decreases f.len() - j,
    {
        proof {
            assert(rel.take(j - i + 1).drop_last() =~= rel.take(j - i));
            assert(rel.take(j - i + 1).last() == f@[j as int]@);
        }
        out = path_push(out.as_str(), f[j].as_str());
        j = j + 1;
    }
    proof {
        assert(rel.take(rel.len() as int) =~= rel);
    }
    out
}

} // verus!

verus! {

/// Why a location could not be determined.
#[derive(Debug, PartialEq, Eq, Structural)]
pub enum PathError {
    /// Neither `$XDG_CONFIG_HOME` nor `$HOME` is set.
    HomeNotSet,
}

/// The characters of an optional string.
pub open spec fn opt_chars(o: Option<String>) -> Option<Seq<char>> {
    match o {
        Some(s) => Some(s@),
        None => None,
    }
}

/// The XDG config directory: `$XDG_CONFIG_HOME` where it is set, else
/// `$HOME/.config`, else nothing.
pub open spec fn xdg_config_home(xdg: Option<Seq<char>>, home: Option<Seq<char>>) -> Option<Seq<char>> {
    match xdg {
        Some(x) => Some(x),
        None => match home {
            Some(h) => Some(push_path(h, ".config"@)),
            None => None,
        },
    }
}

/// pacdef's base directory: `pacdef` under the XDG config directory.
pub open spec fn pacdef_base_dir(xdg: Option<Seq<char>>, home: Option<Seq<char>>) -> Option<Seq<char>> {
    match xdg_config_home(xdg, home) {
        Some(c) => Some(push_path(c, "pacdef"@)),
        None => None,
    }
}

/// `name` under pacdef's base directory.
pub open spec fn in_base_dir(xdg: Option<Seq<char>>, home: Option<Seq<char>>, name: Seq<char>) -> Option<Seq<char>> {
    match pacdef_base_dir(xdg, home) {
        Some(b) => Some(push_path(b, name)),
        None => None,
    }
}

/// What a function that finds a location returns, against what it should.
pub open spec fn location_result(r: Result<String, PathError>, expected: Option<Seq<char>>) -> bool {
    match expected {
        Some(e) => r matches Ok(s) && s@ == e,
        None => r == Err::<String, PathError>(PathError::HomeNotSet),
    }
}

/// The home directory, from the value of `$HOME`.
pub fn get_home_dir(home: Option<String>) -> (r: Result<String, PathError>)
    ensures
        location_result(r, opt_chars(home)),
{
    match home {
        Some(h) => Ok(h),
        None => Err(PathError::HomeNotSet),
    }
}

/// The XDG config directory, from the values of `$XDG_CONFIG_HOME` and
/// `$HOME`: the first where it is set, else `.config` under the second.
pub fn get_xdg_config_home(xdg: Option<String>, home: Option<String>) -> (r: Result<String, PathError>)
    ensures
        location_result(r, xdg_config_home(opt_chars(xdg), opt_chars(home))),
{
    match xdg {
        Some(x) => Ok(x),
        None => {
            let h = get_home_dir(home)?;
            Ok(path_push(h.as_str(), ".config"))
        },
    }
}

/// pacdef's base directory, `$XDG_CONFIG_HOME/pacdef`.
pub fn get_pacdef_base_dir(xdg: Option<String>, home: Option<String>) -> (r: Result<String, PathError>)
    ensures
        location_result(r, pacdef_base_dir(opt_chars(xdg), opt_chars(home))),
{
    let dir = get_xdg_config_home(xdg, home)?;
    Ok(path_push(dir.as_str(), "pacdef"))
}

/// The group directory, `$XDG_CONFIG_HOME/pacdef/groups`.
pub fn get_group_dir(xdg: Option<String>, home: Option<String>) -> (r: Result<String, PathError>)
    ensures
        location_result(r, in_base_dir(opt_chars(xdg), opt_chars(home), "groups"@)),
{
    let dir = get_pacdef_base_dir(xdg, home)?;
    Ok(path_push(dir.as_str(), "groups"))
}

/// The group directory, `$XDG_CONFIG_HOME/pacdef/groups`.
pub fn get_pacdef_group_dir(xdg: Option<String>, home: Option<String>) -> (r: Result<String, PathError>)
    ensures
        location_result(r, in_base_dir(opt_chars(xdg), opt_chars(home), "groups"@)),
{
    get_group_dir(xdg, home)
}

/// The config file, `$XDG_CONFIG_HOME/pacdef/pacdef.yaml`.
pub fn get_config_path(xdg: Option<String>, home: Option<String>) -> (r: Result<String, PathError>)
    ensures
        location_result(r, in_base_dir(opt_chars(xdg), opt_chars(home), "pacdef.yaml"@)),
{
    let dir = get_pacdef_base_dir(xdg, home)?;
    Ok(path_push(dir.as_str(), "pacdef.yaml"))
}

/// The config file of version 0.x, `$XDG_CONFIG_HOME/pacdef/pacdef.conf`.
pub fn get_config_path_old_version(xdg: Option<String>, home: Option<String>) -> (r: Result<String, PathError>)
    ensures
        location_result(r, in_base_dir(opt_chars(xdg), opt_chars(home), "pacdef.conf"@)),
{
    let dir = get_pacdef_base_dir(xdg, home)?;
    Ok(path_push(dir.as_str(), "pacdef.conf"))
}

/// The places where a program `name` is looked for: `name` joined onto
/// each directory of a `$PATH` value (`env::split_paths`, which splits at
/// `:`).
pub fn binary_candidates(path_var: &str, name: &str) -> (r: Vec<String>)
    ensures
        r@.len() == split_on(path_var@, ':').len(),
        forall|i: int| 0 <= i < r@.len() ==> r@[i]@ == push_path(split_on(path_var@, ':')[i], name@),
{
    let chars = str_to_chars(path_var);
    let dirs = split_chars(chars.as_slice(), ':');
    let ghost dv = dirs@.map_values(|l: Vec<char>| l@);
    let mut out: Vec<String> = Vec::new();
    let mut i: usize = 0;
    while i < dirs.len()
        invariant
            i <= dirs@.len(),
            dv == dirs@.map_values(|l: Vec<char>| l@),
            dv == split_on(path_var@, ':'),
            out@.len() == i,
            forall|j: int| 0 <= j < i ==> out@[j]@ == push_path(dv[j], name@),
        decreases dirs.len() - i,
    {
        let d = chars_to_string(dirs[i].as_slice());
        out.push(path_push(d.as_str(), name));
        i = i + 1;
    }
    out
}

} // verus!

verus! {

/// The components of the base followed by those of the relative path are
/// the components of the full path, where the base's components agree
/// with the full path's and are no more.
pub proof fn lemma_relative_components(full: Seq<char>, base: Seq<char>)
    requires
        agrees_with_base(full, base),
        path_components(base).len() <= path_components(full).len(),
    ensures
        path_components(base) + relative_components(full, base) == path_components(full),
{
    let f = path_components(full);
    let b = path_components(base);
    assert(b + f.skip(b.len() as int) =~= f);
}

} // verus!
