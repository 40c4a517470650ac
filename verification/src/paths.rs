//! Paths as text, joined the way `Path::join` joins them on Unix, and the
//! facts about a path that only the file system can answer.

use vstd::prelude::*;
use crate::text::{owned, chars_of, chars_eq, push_char, views};
use crate::ffi_lib::native::{split_on, split_on_exec};

verus! {

/// `base.join(p)`: an absolute `p` replaces the base; otherwise a `/` goes
/// between them unless the base is empty or already ends in one.
pub open spec fn path_join(base: Seq<char>, p: Seq<char>) -> Seq<char> {
    if p.len() > 0 && p[0] == '/' {
        p
    } else if base.len() > 0 && base.last() != '/' {
        base + seq!['/'] + p
    } else {
        base + p
    }
}

pub fn join(base: &str, p: &str) -> (r: String)
    ensures
        r@ == path_join(base@, p@),
{
    let b = chars_of(base);
    let q = chars_of(p);
    if q.len() > 0 && q[0] == '/' {
        return owned(p);
    }
    let mut r = owned(base);
    if b.len() > 0 && b[b.len() - 1] != '/' {
        push_char(&mut r, '/');
    }
    r.append(p);
    proof {
        assert(b@.last() == b@[b@.len() - 1]);
    }
    r
}

/// The pieces `s..n` of `ps` that name a component: neither empty nor `.`.
pub open spec fn keep_range(ps: Seq<Seq<char>>, s: int, n: int) -> Seq<Seq<char>>
    decreases n - s,
{
    if n <= s || n > ps.len() {
        seq![]
    } else {
        let r = keep_range(ps, s, n - 1);
        if ps[n - 1].len() > 0 && ps[n - 1] != seq!['.'] { r.push(ps[n - 1]) } else { r }
    }
}

/// The components of a path as `Path::components` gives them on Unix: the
/// root (written `/`) for an absolute path, a leading `.` for a relative path
/// that starts with one, then the names, with empty pieces and other `.`
/// pieces left out. Two paths are equal as paths exactly when these are.
pub open spec fn path_key(p: Seq<char>) -> Seq<Seq<char>> {
    let ps = split_on(p, seq!['/']);
    if p.len() > 0 && p[0] == '/' {
        seq![seq!['/']] + keep_range(ps, 0, ps.len() as int)
    } else if ps.len() > 0 && ps[0] == seq!['.'] {
        seq![seq!['.']] + keep_range(ps, 1, ps.len() as int)
    } else {
        keep_range(ps, 0, ps.len() as int)
    }
}

/// The components of `p` (see `path_key`).
pub fn path_key_exec(p: &str) -> (r: Vec<Vec<char>>)
    ensures
        views(r@) == path_key(p@),
{
    let cs = chars_of(p);
    let slash: Vec<char> = vec!['/'];
    assert(slash@ =~= seq!['/']);
    let ps = split_on_exec(cs.as_slice(), slash.as_slice());
    let ghost pv = views(ps@);
    let dot: Vec<char> = vec!['.'];
    assert(dot@ =~= seq!['.']);
    let mut out: Vec<Vec<char>> = Vec::new();
    let start: usize = if cs.len() > 0 && cs[0] == '/' {
        out.push(vec!['/']);
        0
    } else if ps.len() > 0 && chars_eq(ps[0].as_slice(), dot.as_slice()) {
        out.push(vec!['.']);
        1
    } else {
        0
    };
    let ghost head = views(out@);
    assert(head.len() <= 1);
    let mut i: usize = start;
    while i < ps.len()
        invariant
            start <= i <= ps@.len(),
            start <= 1,
            pv == views(ps@),
            dot@ == seq!['.'],
            views(out@) == head + keep_range(pv, start as int, i as int),
        decreases ps@.len() - i,
    {
        let ghost before = out@;
        if ps[i].len() > 0 && !chars_eq(ps[i].as_slice(), dot.as_slice()) {
            out.push(copy_piece(&ps[i]));
            assert(views(out@) =~= views(before).push(pv[i as int]));
        }
        i = i + 1;
    }
    proof {
        if cs@.len() > 0 && cs@[0] == '/' {
            assert(head =~= seq![seq!['/']]);
        } else if pv.len() > 0 && pv[0] == seq!['.'] {
            assert(head =~= seq![seq!['.']]);
        } else {
            assert(head =~= Seq::<Seq<char>>::empty());
        }
    }
    out
}

fn copy_piece(v: &Vec<char>) -> (r: Vec<char>)
    ensures
        r@ == v@,
{
    let mut r: Vec<char> = Vec::new();
    let mut i: usize = 0;
    while i < v.len()
        invariant
            i <= v@.len(),
            r@ == v@.subrange(0, i as int),
        decreases v@.len() - i,
    {
        assert(v@.subrange(0, i + 1) =~= v@.subrange(0, i as int).push(v@[i as int]));
        r.push(v[i]);
        i = i + 1;
    }
    r
}

/// Whether two component lists are the same.
pub fn keys_eq(a: &Vec<Vec<char>>, b: &Vec<Vec<char>>) -> (r: bool)
    ensures
        r == (views(a@) == views(b@)),
{
    if a.len() != b.len() {
        assert(views(a@).len() != views(b@).len());
        return false;
    }
    let mut i: usize = 0;
    while i < a.len()
        invariant
            i <= a@.len(),
            a@.len() == b@.len(),
            forall|j: int| 0 <= j < i ==> a@[j]@ == b@[j]@,
        decreases a@.len() - i,
    {
        if !chars_eq(a[i].as_slice(), b[i].as_slice()) {
            assert(views(a@)[i as int] != views(b@)[i as int]);
            return false;
        }
        i = i + 1;
    }
    assert(views(a@) =~= views(b@));
    true
}

/// What the file system says about a path.
#[derive(Debug, Clone)]
pub struct PathFacts {
    pub path: String,
    pub exists: bool,
    pub is_dir: bool,
    /// A `Cargo.toml` is in the directory.
    pub has_cargo_toml: bool,
    /// The file name has an extension.
    pub has_extension: bool,
    /// The extension is `bv`.
    pub extension_is_bv: bool,
    /// The directory holds a `.bv` file.
    pub contains_bv_file: bool,
}

/// The facts about a path as plain values: exists, is a directory, holds a
/// `Cargo.toml`, has an extension, has the extension `bv`, holds a `.bv`
/// file.
pub struct Facts {
    pub exists: bool,
    pub is_dir: bool,
    pub has_cargo_toml: bool,
    pub has_extension: bool,
    pub extension_is_bv: bool,
    pub contains_bv_file: bool,
}

/// The first facts recorded for `path`; a path nothing is recorded about
/// does not exist.
pub open spec fn facts_of(facts: Seq<PathFacts>, path: Seq<char>) -> Facts
    decreases facts.len(),
{
    if facts.len() == 0 {
        Facts {
            exists: false,
            is_dir: false,
            has_cargo_toml: false,
            has_extension: false,
            extension_is_bv: false,
            contains_bv_file: false,
        }
    } else if facts[0].path@ == path {
        Facts {
            exists: facts[0].exists,
            is_dir: facts[0].is_dir,
            has_cargo_toml: facts[0].has_cargo_toml,
            has_extension: facts[0].has_extension,
            extension_is_bv: facts[0].extension_is_bv,
            contains_bv_file: facts[0].contains_bv_file,
        }
    } else {
        facts_of(facts.drop_first(), path)
    }
}

/// Looks up the facts recorded for `path`.
pub fn lookup_facts(facts: &Vec<PathFacts>, path: &str) -> (r: Facts)
    ensures
        r == facts_of(facts@, path@),
{
    let want = chars_of(path);
    let mut i: usize = 0;
    assert(facts@.subrange(0, facts@.len() as int) =~= facts@);
    while i < facts.len()
        invariant
            i <= facts@.len(),
            want@ == path@,
            facts_of(facts@, path@) == facts_of(facts@.subrange(i as int, facts@.len() as int), path@),
        decreases facts@.len() - i,
    {
        let ghost rest = facts@.subrange(i as int, facts@.len() as int);
        assert(rest.drop_first() =~= facts@.subrange(i + 1, facts@.len() as int));
        let key = chars_of(facts[i].path.as_str());
        if chars_eq(key.as_slice(), want.as_slice()) {
            let f = &facts[i];
            return Facts {
                exists: f.exists,
                is_dir: f.is_dir,
                has_cargo_toml: f.has_cargo_toml,
                has_extension: f.has_extension,
                extension_is_bv: f.extension_is_bv,
                contains_bv_file: f.contains_bv_file,
            };
        }
        i = i + 1;
    }
    Facts {
        exists: false,
        is_dir: false,
        has_cargo_toml: false,
        has_extension: false,
        extension_is_bv: false,
        contains_bv_file: false,
    }
}

} // verus!
