//! Import resolution: an import names a module, which the project manifest
//! may map to a file, or which is looked for as `NAME.bv` in the search
//! paths and the project root. A module resolves once; later imports of it
//! get the same answer. What the manifest and the file system answer comes
//! in as arguments.

use vstd::prelude::*;
use crate::text::{owned, chars_of, chars_eq, string_of, debug_text, debug_str, push_char};
use crate::paths::{PathFacts, facts_of, lookup_facts, path_join, join, path_key, path_key_exec, keys_eq};
use crate::text::views;
use crate::table::{keys_of, key_index, keys_distinct, table_map, table_insert, lemma_table_insert, find_key, lemma_key_index};

verus! {

/// Why an import could not be resolved.
#[derive(Debug)]
pub enum ResolveError {
    UnresolvedImport(String),
    NotFound(String),
    RegistryNotSupported(String),
    MultipleCandidates(String, Vec<String>),
}

/// Paths listed the way `{:?}` lists them: `["a", "b"]`.
pub open spec fn debug_list(ps: Seq<Seq<char>>) -> Seq<char>
    decreases ps.len(),
{
    if ps.len() == 0 {
        Seq::empty()
    } else if ps.len() == 1 {
        debug_text(ps[0])
    } else {
        debug_list(ps.drop_last()) + ", "@ + debug_text(ps.last())
    }
}

pub open spec fn strings_view(v: Seq<String>) -> Seq<Seq<char>> {
    v.map_values(|s: String| s@)
}

pub open spec fn resolve_error_text(e: ResolveError) -> Seq<char> {
    match e {
        ResolveError::UnresolvedImport(n) => "Unresolved import '"@ + n@ + "'"@,
        ResolveError::NotFound(n) => "Import '"@ + n@ + "' not found in manifest or search paths"@,
        ResolveError::RegistryNotSupported(n) => "Registry dependency '"@ + n@ + "' not yet supported"@,
        ResolveError::MultipleCandidates(n, ps) =>
            "Multiple candidates found for '"@ + n@ + "': ["@ + debug_list(strings_view(ps@)) + "]"@,
    }
}

impl ResolveError {
    pub fn to_string(&self) -> (s: String)
        ensures
            s@ == resolve_error_text(*self),
    {
        match self {
            ResolveError::UnresolvedImport(n) => {
                let mut s = owned("Unresolved import '");
                s.append(n.as_str());
                s.append("'");
                s
            }
            ResolveError::NotFound(n) => {
                let mut s = owned("Import '");
                s.append(n.as_str());
                s.append("' not found in manifest or search paths");
                s
            }
            ResolveError::RegistryNotSupported(n) => {
                let mut s = owned("Registry dependency '");
                s.append(n.as_str());
                s.append("' not yet supported");
                s
            }
            ResolveError::MultipleCandidates(n, ps) => {
                let mut s = owned("Multiple candidates found for '");
                s.append(n.as_str());
                s.append("': [");
                let ghost base = s@;
                let ghost pv = strings_view(ps@);
                let mut i: usize = 0;
                while i < ps.len()
                    invariant
                        i <= ps@.len(),
                        pv == strings_view(ps@),
                        s@ == base + debug_list(pv.subrange(0, i as int)),
                    decreases ps@.len() - i,
                {
                    if i > 0 {
                        s.append(", ");
                    }
                    s.append(debug_str(ps[i].as_str()).as_str());
                    proof {
                        assert(pv.subrange(0, i + 1).drop_last() =~= pv.subrange(0, i as int));
                        assert(pv.subrange(0, i + 1).last() == ps@[i as int]@);
                    }
                    i = i + 1;
                }
                assert(pv.subrange(0, ps@.len() as int) =~= pv);
                s.append("]");
                s
            }
        }
    }
}

/// How an import was resolved.
#[derive(Debug, Clone, Copy, PartialEq, Eq, Structural)]
pub enum ImportSource {
    Manifest,
    Discovered,
}

/// A resolved import: the module, its file, and how it was found.
#[derive(Debug, Clone)]
pub struct ResolvedImport {
    pub name: String,
    pub path: String,
    pub source: ImportSource,
}

pub struct ResolvedImportV {
    pub name: Seq<char>,
    pub path: Seq<char>,
    pub source: ImportSource,
}

impl View for ResolvedImport {
    type V = ResolvedImportV;

    open spec fn view(&self) -> ResolvedImportV {
        ResolvedImportV { name: self.name@, path: self.path@, source: self.source }
    }
}

impl ResolvedImport {
    pub fn copy(&self) -> (r: Self)
        ensures
            r@ == self@,
    {
        ResolvedImport { name: self.name.clone(), path: self.path.clone(), source: self.source }
    }
}

/// An import: the items taken from a module.
#[derive(Debug, Clone)]
pub struct Import {
    pub items: Vec<String>,
    pub from: String,
}

impl Import {
    pub fn new(from: String, items: Vec<String>) -> (i: Self)
        ensures
            i.from@ == from@,
            strings_view(i.items@) == strings_view(items@),
    {
        Import { from, items }
    }
}

/// The characters of `s` without its trailing `/`s.
pub open spec fn trim_slashes(s: Seq<char>) -> Seq<char>
    decreases s.len(),
{
    if s.len() > 0 && s.last() == '/' {
        trim_slashes(s.drop_last())
    } else {
        s
    }
}

/// The last position of `/` before `n`.
pub open spec fn last_slash(s: Seq<char>, n: int) -> Option<int>
    decreases n,
{
    if n <= 0 || n > s.len() {
        None
    } else if s[n - 1] == '/' {
        Some(n - 1)
    } else {
        last_slash(s, n - 1)
    }
}

/// `Path::parent`: the path without its last component; a root or empty
/// path has none.
pub open spec fn path_parent(p: Seq<char>) -> Option<Seq<char>> {
    let t = trim_slashes(p);
    if t.len() == 0 {
        None
    } else {
        match last_slash(t, t.len() as int) {
            None => Some(Seq::empty()),
            Some(i) => if i == 0 { Some(seq!['/']) } else { Some(trim_slashes(t.subrange(0, i))) },
        }
    }
}

fn trim_slashes_slice(s: &[char]) -> (r: &[char])
    ensures
        r@ == trim_slashes(s@),
{
    let mut n = s.len();
    assert(s@.subrange(0, n as int) =~= s@);
    while n > 0 && s[n - 1] == '/'
        invariant
            n <= s@.len(),
            trim_slashes(s@) == trim_slashes(s@.subrange(0, n as int)),
        decreases n,
    {
        assert(s@.subrange(0, n as int).drop_last() =~= s@.subrange(0, n - 1));
        n = n - 1;
    }
    &s[0..n]
}

/// The parent of a path.
pub fn parent_of(p: &str) -> (r: Option<String>)
    ensures
        match (r, path_parent(p@)) {
            (Some(a), Some(b)) => a@ == b,
            (None, None) => true,
            _ => false,
        },
{
    let pc = chars_of(p);
    let t = trim_slashes_slice(pc.as_slice());
    if t.len() == 0 {
        return None;
    }
    let mut k = t.len();
    while k > 0 && t[k - 1] != '/'
        invariant
            k <= t@.len(),
            last_slash(t@, t@.len() as int) == last_slash(t@, k as int),
        decreases k,
    {
        k = k - 1;
    }
    if k == 0 {
        Some(String::new())
    } else if k == 1 {
        let mut s = String::new();
        push_char(&mut s, '/');
        Some(s)
    } else {
        let head = trim_slashes_slice(&t[0..k - 1]);
        Some(string_of(head))
    }
}

/// The project root: the directory of the manifest, or `.`.
pub open spec fn project_root(manifest_path: Option<Seq<char>>) -> Seq<char> {
    match manifest_path {
        Some(m) => match path_parent(m) {
            Some(p) => p,
            None => "."@,
        },
        None => "."@,
    }
}

/// Where `NAME.bv` is looked for: each search path under the root, in
/// order, then the root itself.
pub open spec fn import_places(root: Seq<char>, dirs: Seq<Seq<char>>, name: Seq<char>) -> Seq<Seq<char>> {
    Seq::new(dirs.len(), |i: int| path_join(path_join(root, dirs[i]), name + ".bv"@)).push(path_join(root, name + ".bv"@))
}

/// The places that exist: the search paths' in order, then the root's
/// unless one of them is the same path (compared by components, so that
/// `root/./X.bv` and `root/X.bv` are one place).
pub open spec fn existing_places(places: Seq<Seq<char>>, facts: Seq<PathFacts>) -> Seq<Seq<char>> {
    let found = places.drop_last().filter(|p: Seq<char>| facts_of(facts, p).exists);
    let direct = places.last();
    if facts_of(facts, direct).exists && !found.map_values(|q: Seq<char>| path_key(q)).contains(path_key(direct)) {
        found.push(direct)
    } else {
        found
    }
}

/// What a resolution leaves for the lookups: where `resolve` has recorded
/// `ri` for `name` (its map becomes `m.insert(name, ri)`), `get_resolved`
/// of `name` answers `ri`, and of any other name what it answered before.
pub proof fn law_resolution_kept(m: Map<Seq<char>, ResolvedImportV>, name: Seq<char>, ri: ResolvedImportV, other: Seq<char>)
    requires
        other != name,
    ensures
        m.insert(name, ri).contains_key(name) && m.insert(name, ri)[name] == ri,
        m.insert(name, ri).contains_key(other) == m.contains_key(other),
        m.contains_key(other) ==> m.insert(name, ri)[other] == m[other],
{
}

/// Resolves imports, each module once.
pub struct Resolver {
    manifest_path: Option<String>,
    search_paths: Vec<String>,
    resolved: Vec<(String, ResolvedImport)>,
    discovered_paths: Vec<String>,
}

impl Resolver {
    pub closed spec fn resolved_map(self) -> Map<Seq<char>, ResolvedImportV> {
        table_map(self.resolved@).map_values(|r: ResolvedImport| r@)
    }

    /// The resolved imports in the order they were first resolved.
    pub closed spec fn resolved_list(self) -> Seq<ResolvedImportV> {
        self.resolved@.map_values(|e: (String, ResolvedImport)| e.1@)
    }

    pub closed spec fn search_paths_view(self) -> Seq<Seq<char>> {
        strings_view(self.search_paths@)
    }

    pub closed spec fn manifest_path_view(self) -> Option<Seq<char>> {
        match self.manifest_path {
            Some(m) => Some(m@),
            None => None,
        }
    }

    /// Each module is resolved once and recorded under its own name.
    pub closed spec fn wf(self) -> bool {
        &&& keys_distinct(keys_of(self.resolved@))
        &&& forall|i: int| 0 <= i < self.resolved@.len() ==> (#[trigger] self.resolved@[i]).0@ == self.resolved@[i].1.name@
    }

    /// A resolver without a manifest that searches `lib`, `imports` and `.`.
    pub fn new() -> (r: Self)
        ensures
            r.wf(),
            r.resolved_map() == Map::<Seq<char>, ResolvedImportV>::empty(),
            r.search_paths_view() == seq!["lib"@, "imports"@, "."@],
            r.manifest_path_view() is None,
    {
        let mut search_paths: Vec<String> = Vec::new();
        search_paths.push(owned("lib"));
        search_paths.push(owned("imports"));
        search_paths.push(owned("."));
        let r = Resolver { manifest_path: None, search_paths, resolved: Vec::new(), discovered_paths: Vec::new() };
        assert(r.resolved_map() =~= Map::<Seq<char>, ResolvedImportV>::empty());
        assert(r.search_paths_view() =~= seq!["lib"@, "imports"@, "."@]);
        r
    }

    /// The resolver, for a project whose manifest is at `manifest_path`.
    pub fn with_manifest(self, manifest_path: String) -> (r: Self)
        requires
            self.wf(),
        ensures
            r.wf(),
            r.manifest_path_view() == Some(manifest_path@),
            r.resolved_map() == self.resolved_map(),
            r.search_paths_view() == self.search_paths_view(),
    {
        let mut r = self;
        r.manifest_path = Some(manifest_path);
        r
    }

    pub fn add_search_path(&mut self, path: String)
        requires
            old(self).wf(),
        ensures
            final(self).wf(),
            final(self).search_paths_view() == old(self).search_paths_view().push(path@),
            final(self).resolved_map() == old(self).resolved_map(),
            final(self).manifest_path_view() == old(self).manifest_path_view(),
    {
        let ghost before = self.search_paths@;
        let ghost pv = path@;
        self.search_paths.push(path);
        assert(strings_view(self.search_paths@) =~= strings_view(before).push(pv));
    }

    /// The project root.
    pub fn project_root(&self) -> (r: String)
        ensures
            r@ == project_root(self.manifest_path_view()),
    {
        match &self.manifest_path {
            Some(m) => match parent_of(m.as_str()) {
                Some(p) => p,
                None => owned("."),
            },
            None => owned("."),
        }
    }

    /// The places where `name.bv` is looked for, in order.
    pub fn probe_paths(&self, name: &str) -> (v: Vec<String>)
        ensures
            strings_view(v@) == import_places(project_root(self.manifest_path_view()), self.search_paths_view(), name@),
    {
        let root = self.project_root();
        let mut file = owned(name);
        file.append(".bv");
        let ghost dirs = self.search_paths_view();
        let mut v: Vec<String> = Vec::new();
        let mut i: usize = 0;
        while i < self.search_paths.len()
            invariant
                i <= self.search_paths@.len(),
                dirs == self.search_paths_view(),
                root@ == project_root(self.manifest_path_view()),
                file@ == name@ + ".bv"@,
                strings_view(v@) == Seq::new(i as nat, |j: int| path_join(path_join(root@, dirs[j]), name@ + ".bv"@)),
            decreases self.search_paths@.len() - i,
        {
            let dir = join(root.as_str(), self.search_paths[i].as_str());
            assert(dirs[i as int] == self.search_paths@[i as int]@);
            let ghost before = v@;
            let item = join(dir.as_str(), file.as_str());
            let ghost iv = item@;
            v.push(item);
            assert(strings_view(v@) =~= strings_view(before).push(iv));
            assert(strings_view(v@) =~= Seq::new((i + 1) as nat, |j: int| path_join(path_join(root@, dirs[j]), name@ + ".bv"@)));
            i = i + 1;
        }
        let ghost before = v@;
        v.push(join(root.as_str(), file.as_str()));
        assert(strings_view(v@) =~= import_places(root@, dirs, name@));
        v
    }

    /// Resolves an import. A module resolved before gets the same answer.
    /// Otherwise the manifest's answer (`manifest_path`, what the project
    /// manifest maps the module to, if it does) wins; failing that, the
    /// module must exist in exactly one of the places `probe_paths` lists.
    pub fn resolve(&mut self, import: &Import, manifest_answer: Option<String>, facts: &Vec<PathFacts>) -> (r: Result<ResolvedImport, ResolveError>)
        requires
            old(self).wf(),
        ensures
            final(self).wf(),
            final(self).search_paths_view() == old(self).search_paths_view(),
            final(self).manifest_path_view() == old(self).manifest_path_view(),
            old(self).resolved_map().contains_key(import.from@) ==> (r matches Ok(ri) && ri@ == old(self).resolved_map()[import.from@])
                && final(self).resolved_map() == old(self).resolved_map(),
            !old(self).resolved_map().contains_key(import.from@) ==> match manifest_answer {
                Some(p) => (r matches Ok(ri) && ri@ == (ResolvedImportV { name: import.from@, path: p@, source: ImportSource::Manifest }))
                    && final(self).resolved_map() == old(self).resolved_map().insert(import.from@, r->Ok_0@),
                None => {
                    let c = existing_places(
                        import_places(project_root(old(self).manifest_path_view()), old(self).search_paths_view(), import.from@),
                        facts@,
                    );
                    if c.len() == 0 {
                        (r matches Err(ResolveError::NotFound(n)) && n@ == import.from@)
                            && final(self).resolved_map() == old(self).resolved_map()
                    } else if c.len() == 1 {
                        (r matches Ok(ri) && ri@ == (ResolvedImportV { name: import.from@, path: c[0], source: ImportSource::Discovered }))
                            && final(self).resolved_map() == old(self).resolved_map().insert(import.from@, r->Ok_0@)
                    } else {
                        (r matches Err(ResolveError::MultipleCandidates(n, ps)) && n@ == import.from@ && strings_view(ps@) == c)
                            && final(self).resolved_map() == old(self).resolved_map()
                    }
                },
            },
    {
        let name = &import.from;
        match find_key(&self.resolved, name.as_str()) {
            Some(i) => {
                proof {
                    lemma_key_index(keys_of(self.resolved@), name@);
                }
                return Ok(self.resolved[i].1.copy());
            }
            None => {}
        }
        match manifest_answer {
            Some(path) => {
                let resolved = ResolvedImport { name: name.clone(), path, source: ImportSource::Manifest };
                self.record(resolved.copy());
                return Ok(resolved);
            }
            None => {}
        }
        let places = self.probe_paths(name.as_str());
        let ghost pv = strings_view(places@);
        let n = places.len();
        let mut candidates: Vec<String> = Vec::new();
        let mut i: usize = 0;
        assert(pv.drop_last().subrange(0, 0) =~= Seq::<Seq<char>>::empty());
        while i + 1 < n
            invariant
                n == places@.len(),
                n >= 1,
                i + 1 <= n,
                pv == strings_view(places@),
                strings_view(candidates@) == pv.drop_last().subrange(0, i as int).filter(|p: Seq<char>| facts_of(facts@, p).exists),
            decreases n - i,
        {
            let ghost before = candidates@;
            proof {
                assert(pv.drop_last().subrange(0, i + 1).drop_last() =~= pv.drop_last().subrange(0, i as int));
                assert(pv.drop_last().subrange(0, i + 1).last() == places@[i as int]@);
                reveal(Seq::filter);
            }
            if lookup_facts(facts, places[i].as_str()).exists {
                candidates.push(places[i].clone());
                assert(strings_view(candidates@) =~= strings_view(before).push(places@[i as int]@));
            }
            i = i + 1;
        }
        assert(pv.drop_last().subrange(0, i as int) =~= pv.drop_last());
        let direct = &places[n - 1];
        assert(pv.last() == direct@);
        if lookup_facts(facts, direct.as_str()).exists && !contains_place(&candidates, direct) {
            let ghost before = candidates@;
            candidates.push(direct.clone());
            assert(strings_view(candidates@) =~= strings_view(before).push(direct@));
        }
        if candidates.len() == 0 {
            Err(ResolveError::NotFound(name.clone()))
        } else if candidates.len() == 1 {
            assert(strings_view(candidates@)[0] == candidates@[0]@);
            let resolved = ResolvedImport { name: name.clone(), path: candidates[0].clone(), source: ImportSource::Discovered };
            self.record(resolved.copy());
            Ok(resolved)
        } else {
            Err(ResolveError::MultipleCandidates(name.clone(), candidates))
        }
    }

    fn record(&mut self, r: ResolvedImport)
        requires
            old(self).wf(),
            !old(self).resolved_map().contains_key(r.name@),
        ensures
            final(self).wf(),
            final(self).resolved_map() == old(self).resolved_map().insert(r.name@, r@),
            final(self).search_paths_view() == old(self).search_paths_view(),
            final(self).manifest_path_view() == old(self).manifest_path_view(),
    {
        let ghost before = self.resolved@;
        let key = r.name.clone();
        let ghost rv = r@;
        proof {
            lemma_key_index(keys_of(before), key@);
        }
        self.resolved.push((key, r));
        proof {
            assert(self.resolved@ == table_insert(before, key, r));
            lemma_table_insert(before, key, r);
            assert(table_map(before).insert(key@, r).map_values(|x: ResolvedImport| x@)
                =~= table_map(before).map_values(|x: ResolvedImport| x@).insert(key@, rv));
        }
    }

    /// The resolution of `name`, if it was resolved.
    pub fn get_resolved(&self, name: &str) -> (r: Option<ResolvedImport>)
        ensures
            match r {
                Some(ri) => self.resolved_map().contains_key(name@) && ri@ == self.resolved_map()[name@],
                None => !self.resolved_map().contains_key(name@),
            },
    {
        match find_key(&self.resolved, name) {
            Some(i) => Some(self.resolved[i].1.copy()),
            None => None,
        }
    }

    /// Every resolution, each once.
    pub fn all_resolved(&self) -> (v: Vec<ResolvedImport>)
        ensures
            v@.map_values(|r: ResolvedImport| r@) == self.resolved_list(),
    {
        let mut v: Vec<ResolvedImport> = Vec::new();
        let mut i: usize = 0;
        while i < self.resolved.len()
            invariant
                i <= self.resolved@.len(),
                v@.len() == i,
                forall|j: int| 0 <= j < i ==> (#[trigger] v@[j])@ == self.resolved@[j].1@,
            decreases self.resolved@.len() - i,
        {
            v.push(self.resolved[i].1.copy());
            i = i + 1;
        }
        assert(v@.map_values(|r: ResolvedImport| r@) =~= self.resolved_list());
        v
    }

    /// The resolutions found in the search paths rather than the manifest.
    pub fn get_discovered(&self) -> (v: Vec<ResolvedImport>)
        ensures
            v@.map_values(|r: ResolvedImport| r@) == self.resolved_list().filter(|r: ResolvedImportV| r.source == ImportSource::Discovered),
    {
        let ghost all = self.resolved_list();
        let mut v: Vec<ResolvedImport> = Vec::new();
        let mut i: usize = 0;
        while i < self.resolved.len()
            invariant
                i <= self.resolved@.len(),
                all == self.resolved_list(),
                v@.map_values(|r: ResolvedImport| r@) == all.subrange(0, i as int).filter(|r: ResolvedImportV| r.source == ImportSource::Discovered),
            decreases self.resolved@.len() - i,
        {
            let ghost before = v@;
            proof {
                assert(all.subrange(0, i + 1).drop_last() =~= all.subrange(0, i as int));
                assert(all.subrange(0, i + 1).last() == self.resolved@[i as int].1@);
                reveal(Seq::filter);
            }
            if self.resolved[i].1.source == ImportSource::Discovered {
                let c = self.resolved[i].1.copy();
                let ghost cv = c@;
                v.push(c);
                assert(v@.map_values(|r: ResolvedImport| r@) =~= before.map_values(|r: ResolvedImport| r@).push(cv));
            }
            i = i + 1;
        }
        assert(all.subrange(0, self.resolved@.len() as int) =~= all);
        v
    }
}

impl Default for Resolver {
    fn default() -> (r: Self)
        ensures
            r.wf(),
            r.resolved_map() == Map::<Seq<char>, ResolvedImportV>::empty(),
            r.search_paths_view() == seq!["lib"@, "imports"@, "."@],
            r.manifest_path_view() is None,
    {
        Self::new()
    }
}

fn contains_place(v: &Vec<String>, s: &String) -> (b: bool)
    ensures
        b == strings_view(v@).map_values(|q: Seq<char>| path_key(q)).contains(path_key(s@)),
{
    let want = path_key_exec(s.as_str());
    let ghost ks = strings_view(v@).map_values(|q: Seq<char>| path_key(q));
    let mut i: usize = 0;
    while i < v.len()
        invariant
            i <= v@.len(),
            views(want@) == path_key(s@),
            ks == strings_view(v@).map_values(|q: Seq<char>| path_key(q)),
            forall|j: int| 0 <= j < i ==> path_key(v@[j]@) != path_key(s@),
        decreases v@.len() - i,
    {
        let k = path_key_exec(v[i].as_str());
        if keys_eq(&k, &want) {
            assert(ks[i as int] == path_key(s@));
            return true;
        }
        i = i + 1;
    }
    assert(!ks.contains(path_key(s@))) by {
        assert forall|j: int| 0 <= j < ks.len() implies ks[j] != path_key(s@) by {
            assert(ks[j] == path_key(v@[j]@));
        }
    }
    false
}

/// A path relative to the project root: the root and the separator after
/// it taken off when the path starts with them, the path itself otherwise.
pub open spec fn relative_path(path: Seq<char>, root: Seq<char>) -> Seq<char> {
    if root.len() > 0 && path.len() > root.len() && path.subrange(0, root.len() as int) == root && path[root.len() as int] == '/' {
        path.subrange(root.len() as int + 1, path.len() as int)
    } else if path == root {
        Seq::empty()
    } else {
        path
    }
}

/// The path a discovered module is recorded under in the manifest.
pub fn relative_to_project(path: &str, project_root: &str) -> (r: String)
    ensures
        r@ == relative_path(path@, project_root@),
{
    let p = chars_of(path);
    let root = chars_of(project_root);
    let n = root.len();
    if n > 0 && p.len() > n && crate::text::starts_with_slice(p.as_slice(), root.as_slice()) && p[n] == '/' {
        string_of(&p.as_slice()[n + 1..p.len()])
    } else if chars_eq(p.as_slice(), root.as_slice()) {
        String::new()
    } else {
        owned(path)
    }
}

} // verus!
