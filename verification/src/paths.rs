//! The path mapper: the invertible translation between template-tree
//! locations (under the template root, un-hidden) and live dotfile
//! locations (under the home root, first segment hidden with a leading
//! `.`), together with the membership rules for template enumeration.
//!
//! Paths are absolute `/`-separated strings; a path in *normal form* has no
//! empty, `.` or `..` segment and no trailing separator.
use vstd::prelude::*;
use crate::errors::SyncError;
use crate::text::{starts_with, ends_with, append_chars};

verus! {

/// `p` lies strictly under the directory `root`: it is `root`, a
/// separator, and a nonempty remainder.
pub open spec fn under_root(root: Seq<char>, p: Seq<char>) -> bool {
    p.len() > root.len() + 1 && p.take(root.len() as int) == root && p[root.len() as int] == '/'
}

/// The remainder of `p` under `root`, without the leading separator.
pub open spec fn rel_to(root: Seq<char>, p: Seq<char>) -> Seq<char>
    recommends
        under_root(root, p),
{
    p.skip(root.len() as int + 1)
}

/// The live dotfile location of a template-tree path: the remainder under
/// the template root, its first segment hidden, under the home root.
/// `None` when `p` does not lie under the template root.
pub open spec fn to_dotfile(home: Seq<char>, dot: Seq<char>, p: Seq<char>) -> Option<Seq<char>> {
    if under_root(dot, p) {
        Some(home + seq!['/', '.'] + rel_to(dot, p))
    } else {
        None
    }
}

/// The template-tree location of a live dotfile path: the remainder under
/// the home root, un-hidden, under the template root.  `None` when `p`
/// does not lie under the home root or its name there does not start with
/// `.`.
pub open spec fn to_template(home: Seq<char>, dot: Seq<char>, p: Seq<char>) -> Option<Seq<char>> {
    if under_root(home, p) && rel_to(home, p)[0] == '.' {
        Some(dot + seq!['/'] + rel_to(home, p).skip(1))
    } else {
        None
    }
}

/// Some segment of `rel` starts with `.`.
pub open spec fn has_hidden_segment(rel: Seq<char>) -> bool {
    exists|i: int| 0 <= i < rel.len() && #[trigger] rel[i] == '.' && (i == 0 || rel[i - 1] == '/')
}

/// A template-tree file that enumeration hands out: under the template
/// root, hidden nowhere along its relative path, and not a local
/// configuration document (the `.json` suffix).
pub open spec fn is_template_candidate(dot: Seq<char>, p: Seq<char>) -> bool {
    &&& under_root(dot, p)
    &&& !has_hidden_segment(rel_to(dot, p))
    &&& !seq!['.', 'j', 's', 'o', 'n'].is_suffix_of(p)
}

/// An absolute path in normal form: starts with the separator, and has no
/// empty, `.` or `..` segment and no trailing separator.
pub open spec fn is_normal_absolute(p: Seq<char>) -> bool {
    &&& p.len() > 0
    &&& p[0] == '/'
    &&& forall|i: int| 0 < i < p.len() ==> !(#[trigger] p[i] == '/' && p[i - 1] == '/')
    &&& (p.len() > 1 ==> p[p.len() - 1] != '/')
    &&& forall|i: int|
        0 < i < p.len() && #[trigger] p[i] == '.' && p[i - 1] == '/' ==> !(i == p.len() - 1 || p[i
            + 1] == '/' || (p[i + 1] == '.' && (i + 2 == p.len() || p[i + 2] == '/')))
}

/// Relies on path_abs::PathAbs::new: resolves `.` and `..` lexically,
/// making a relative path absolute against the process working directory.
/// On this platform an absolute path already in normal form comes back
/// unchanged, and for such a path the call cannot fail.
#[verifier::external_body]
pub(crate) fn canonicalize(path: &str) -> (r: Result<String, SyncError>)
    ensures
        match r {
            Ok(c) => is_normal_absolute(path@) ==> c@ == path@,
            Err(_) => !is_normal_absolute(path@),
        },
{
    match path_abs::PathAbs::new(std::path::Path::new(path)) {
        Ok(p) => match p.as_path().to_str() {
            Some(s) => Ok(s.to_owned()),
            None => Err(
                SyncError::Io { detail: "canonical path is not valid unicode".to_owned() },
            ),
        },
        Err(e) => Err(SyncError::Io { detail: e.to_string() }),
    }
}

/// Whether the characters `p` lie strictly under the directory `root`.
pub fn under_root_exec(root: &Vec<char>, p: &Vec<char>) -> (r: bool)
    ensures
        r == under_root(root@, p@),
{
    if p.len() <= root.len() || p.len() - root.len() <= 1 {
        return false;
    }
    if !starts_with(p, root) {
        assert(p@.take(root@.len() as int) != root@) by {
            if p@.take(root@.len() as int) == root@ {
                assert(root@.is_prefix_of(p@));
            }
        }
        return false;
    }
    assert(p@.take(root@.len() as int) == root@);
    p[root.len()] == '/'
}

/// The dotfile location of the template-tree path `p`, as characters.
pub fn to_dotfile_exec(home: &Vec<char>, dot: &Vec<char>, p: &Vec<char>) -> (r: Option<
    Vec<char>,
>)
    ensures
        match r {
            Some(s) => to_dotfile(home@, dot@, p@) == Some(s@),
            None => to_dotfile(home@, dot@, p@) is None,
        },
{
    if !under_root_exec(dot, p) {
        return None;
    }
    let _plen = p.len();
    let mut out: Vec<char> = Vec::new();
    append_chars(&mut out, home);
    out.push('/');
    out.push('.');
    let mut i: usize = dot.len() + 1;
    while i < p.len()
        invariant
            dot@.len() + 1 <= i <= p@.len(),
            out@ == home@ + seq!['/', '.'] + p@.subrange(dot@.len() as int + 1, i as int),
        decreases p@.len() - i,
    {
        out.push(p[i]);
        assert(out@ =~= home@ + seq!['/', '.'] + p@.subrange(dot@.len() as int + 1, i + 1));
        i = i + 1;
    }
    assert(out@ =~= home@ + seq!['/', '.'] + rel_to(dot@, p@)) by {
        assert(p@.subrange(dot@.len() as int + 1, p@.len() as int) =~= p@.skip(dot@.len() as int + 1));
    }
    Some(out)
}

/// The template-tree location of the dotfile path `p`, as characters.
pub fn to_template_exec(home: &Vec<char>, dot: &Vec<char>, p: &Vec<char>) -> (r: Option<
    Vec<char>,
>)
    ensures
        match r {
            Some(s) => to_template(home@, dot@, p@) == Some(s@),
            None => to_template(home@, dot@, p@) is None,
        },
{
    if !under_root_exec(home, p) {
        return None;
    }
    let _plen = p.len();
    if p[home.len() + 1] != '.' {
        assert(rel_to(home@, p@)[0] != '.');
        return None;
    }
    assert(rel_to(home@, p@)[0] == '.');
    let mut out: Vec<char> = Vec::new();
    append_chars(&mut out, dot);
    out.push('/');
    let mut i: usize = home.len() + 2;
    while i < p.len()
        invariant
            home@.len() + 2 <= i <= p@.len(),
            out@ == dot@ + seq!['/'] + p@.subrange(home@.len() as int + 2, i as int),
        decreases p@.len() - i,
    {
        out.push(p[i]);
        assert(out@ =~= dot@ + seq!['/'] + p@.subrange(home@.len() as int + 2, i + 1));
        i = i + 1;
    }
    assert(out@ =~= dot@ + seq!['/'] + rel_to(home@, p@).skip(1)) by {
        assert(p@.subrange(home@.len() as int + 2, p@.len() as int) =~= p@.skip(home@.len() as int + 1).skip(1));
    }
    Some(out)
}

/// Whether `p` is a file the template enumeration hands out.
pub fn is_candidate_exec(dot: &Vec<char>, p: &Vec<char>) -> (r: bool)
    ensures
        r == is_template_candidate(dot@, p@),
{
    if !under_root_exec(dot, p) {
        return false;
    }
    let suffix: Vec<char> = vec!['.', 'j', 's', 'o', 'n'];
    assert(suffix@ =~= seq!['.', 'j', 's', 'o', 'n']);
    if ends_with(p, &suffix) {
        return false;
    }
    let _plen = p.len();
    let start = dot.len() + 1;
    let mut i: usize = start;
    while i < p.len()
        invariant
            start == dot@.len() + 1,
            under_root(dot@, p@),
            start <= i <= p@.len(),
            forall|j: int|
                start <= j < i ==> !(#[trigger] p@[j] == '.' && (j == start || p@[j - 1] == '/')),
        decreases p@.len() - i,
    {
        if p[i] == '.' && (i == start || p[i - 1] == '/') {
            assert(has_hidden_segment(rel_to(dot@, p@))) by {
                let k = i - start;
                assert(rel_to(dot@, p@)[k as int] == p@[i as int]);
                if k > 0 {
                    assert(rel_to(dot@, p@)[k - 1 as int] == p@[i - 1 as int]);
                }
            }
            return false;
        }
        i = i + 1;
    }
    assert(!has_hidden_segment(rel_to(dot@, p@))) by {
        if has_hidden_segment(rel_to(dot@, p@)) {
            let k = choose|k: int|
                0 <= k < rel_to(dot@, p@).len() && #[trigger] rel_to(dot@, p@)[k] == '.' && (k == 0 || rel_to(
                    dot@,
                    p@,
                )[k - 1] == '/');
            assert(p@[k + start] == '.');
            if k > 0 {
                assert(p@[k + start - 1] == '/');
            }
        }
    }
    true
}

/// Mapping stability: the dotfile location of a template-tree path, taken
/// back to template space and to dotfile space once more, is unchanged.
/// Holds for every path under the template root whose relative name has no
/// hidden segment.
pub proof fn lemma_mapping_stability(home: Seq<char>, dot: Seq<char>, p: Seq<char>)
    requires
        under_root(dot, p),
        !has_hidden_segment(rel_to(dot, p)),
    ensures
        to_dotfile(home, dot, p) is Some,
        to_template(home, dot, to_dotfile(home, dot, p)->Some_0) == Some(p),
        to_dotfile(home, dot, to_template(home, dot, to_dotfile(home, dot, p)->Some_0)->Some_0)
            == to_dotfile(home, dot, p),
{
    lemma_template_round_trip(home, dot, p);
}

/// Round trip out of template space: `to_template` inverts `to_dotfile`
/// on every path under the template root.
pub proof fn lemma_template_round_trip(home: Seq<char>, dot: Seq<char>, p: Seq<char>)
    requires
        under_root(dot, p),
    ensures
        to_dotfile(home, dot, p) is Some,
        to_template(home, dot, to_dotfile(home, dot, p)->Some_0) == Some(p),
{
    let rel = rel_to(dot, p);
    let d = home + seq!['/', '.'] + rel;
    assert(d.take(home.len() as int) =~= home);
    assert(d[home.len() as int] == '/');
    assert(under_root(home, d));
    assert(rel_to(home, d) =~= seq!['.'] + rel);
    assert(rel_to(home, d)[0] == '.');
    assert(rel_to(home, d).skip(1) =~= rel);
    assert(dot + seq!['/'] + rel =~= p) by {
        assert(p.take(dot.len() as int) == dot);
        assert(p[dot.len() as int] == '/');
    }
}

/// Round trip out of dotfile space: `to_dotfile` inverts `to_template` on
/// every path under the home root whose name there starts with `.`.
pub proof fn lemma_dotfile_round_trip(home: Seq<char>, dot: Seq<char>, p: Seq<char>)
    requires
        under_root(home, p),
        rel_to(home, p).len() > 1,
        rel_to(home, p)[0] == '.',
    ensures
        to_template(home, dot, p) is Some,
        to_dotfile(home, dot, to_template(home, dot, p)->Some_0) == Some(p),
{
    let rel = rel_to(home, p);
    let t = dot + seq!['/'] + rel.skip(1);
    assert(t.take(dot.len() as int) =~= dot);
    assert(t[dot.len() as int] == '/');
    assert(under_root(dot, t));
    assert(rel_to(dot, t) =~= rel.skip(1));
    assert(home + seq!['/', '.'] + rel.skip(1) =~= p) by {
        assert(p.take(home.len() as int) == home);
        assert(p[home.len() as int] == '/');
        assert(p[home.len() as int + 1] == '.');
    }
}

} // verus!
