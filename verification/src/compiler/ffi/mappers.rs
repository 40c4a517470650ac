//! The registry of mappers, which translate between a foreign language's
//! types and Brief's. A mapper is found by name in the search paths, in
//! order, as a directory, a `NAME_mapper.bv` file or a `NAME.bv` file, or
//! at an explicit path. What the file system holds comes in as facts.

use vstd::prelude::*;
use crate::text::{owned, chars_of};
use crate::paths::{PathFacts, Facts, facts_of, lookup_facts, path_join, join};
use crate::table::{keys_of, key_index, keys_distinct, table_map, table_insert, lemma_table_insert, find_key, lemma_key_index};
use crate::seqs::lemma_first_index_is;

verus! {

#[derive(Debug, Clone, Copy, PartialEq, Eq, Structural)]
pub enum MapperType {
    Brief,
    Rust,
}

/// A mapper that was found: its name, where it is, and what it is written in.
#[derive(Debug, Clone)]
pub struct MapperInfo {
    pub name: String,
    pub path: String,
    pub mapper_type: MapperType,
}

pub struct MapperInfoV {
    pub name: Seq<char>,
    pub path: Seq<char>,
    pub mapper_type: MapperType,
}

impl View for MapperInfo {
    type V = MapperInfoV;

    open spec fn view(&self) -> MapperInfoV {
        MapperInfoV { name: self.name@, path: self.path@, mapper_type: self.mapper_type }
    }
}

impl MapperInfo {
    pub fn copy(&self) -> (r: Self)
        ensures
            r@ == self@,
    {
        MapperInfo { name: self.name.clone(), path: self.path.clone(), mapper_type: self.mapper_type }
    }
}

/// A `.bv` file is a Brief mapper; a directory with a `Cargo.toml` a Rust
/// one; anything else is taken as Brief.
pub open spec fn detect(f: Facts) -> MapperType {
    if f.extension_is_bv {
        MapperType::Brief
    } else if f.has_cargo_toml {
        MapperType::Rust
    } else {
        MapperType::Brief
    }
}

/// The three places a mapper may be in one search path.
pub open spec fn places(base: Seq<char>, name: Seq<char>) -> Seq<Seq<char>> {
    seq![path_join(base, name), path_join(base, name + "_mapper.bv"@), path_join(base, name + ".bv"@)]
}

/// The first place, over the search paths in order, that exists.
pub open spec fn search(bases: Seq<Seq<char>>, name: Seq<char>, facts: Seq<PathFacts>) -> Option<Seq<char>>
    decreases bases.len(),
{
    if bases.len() == 0 {
        None
    } else {
        let p = places(bases[0], name);
        if facts_of(facts, p[0]).exists {
            Some(p[0])
        } else if facts_of(facts, p[1]).exists {
            Some(p[1])
        } else if facts_of(facts, p[2]).exists {
            Some(p[2])
        } else {
            search(bases.drop_first(), name, facts)
        }
    }
}

/// The mapper `find_mapper` gives.
pub open spec fn found(bases: Seq<Seq<char>>, name: Seq<char>, custom: Option<Seq<char>>, facts: Seq<PathFacts>) -> Option<MapperInfoV> {
    match custom {
        Some(p) => {
            let f = facts_of(facts, p);
            if f.exists || f.has_extension {
                Some(MapperInfoV { name, path: p, mapper_type: detect(f) })
            } else {
                None
            }
        },
        None => match search(bases, name, facts) {
            Some(p) => Some(MapperInfoV { name, path: p, mapper_type: MapperType::Brief }),
            None => None,
        },
    }
}

pub open spec fn opt_chars(o: Option<&str>) -> Option<Seq<char>> {
    match o {
        Some(s) => Some(s@),
        None => None,
    }
}

pub open spec fn info_views(v: Seq<MapperInfo>) -> Seq<MapperInfoV> {
    v.map_values(|m: MapperInfo| m@)
}

/// Registered mappers by name, and the search paths in priority order.
pub struct MapperRegistry {
    mappers: Vec<(String, MapperInfo)>,
    search_paths: Vec<String>,
}

impl MapperRegistry {
    pub closed spec fn mappers_map(self) -> Map<Seq<char>, MapperInfoV> {
        table_map(self.mappers@).map_values(|m: MapperInfo| m@)
    }

    /// The registered mappers in the order they were first registered.
    pub closed spec fn entries_view(self) -> Seq<MapperInfoV> {
        self.mappers@.map_values(|e: (String, MapperInfo)| e.1@)
    }

    /// The names of the registered mappers, in the order of `entries_view`.
    pub closed spec fn names_view(self) -> Seq<Seq<char>> {
        keys_of(self.mappers@)
    }

    pub closed spec fn search_paths_view(self) -> Seq<Seq<char>> {
        self.search_paths@.map_values(|s: String| s@)
    }

    pub closed spec fn wf(self) -> bool {
        keys_distinct(keys_of(self.mappers@))
    }

    /// A registry that searches `lib/mappers`, then `lib/ffi/mappers`.
    pub fn new() -> (r: Self)
        ensures
            r.wf(),
            r.mappers_map() == Map::<Seq<char>, MapperInfoV>::empty(),
            r.entries_view() == Seq::<MapperInfoV>::empty(),
            r.names_view() == Seq::<Seq<char>>::empty(),
            r.search_paths_view() == seq!["lib/mappers"@, "lib/ffi/mappers"@],
    {
        let mut r = MapperRegistry { mappers: Vec::new(), search_paths: Vec::new() };
        r.add_search_path(owned("lib/mappers"));
        r.add_search_path(owned("lib/ffi/mappers"));
        assert(r.mappers_map() =~= Map::<Seq<char>, MapperInfoV>::empty());
        assert(r.entries_view() =~= Seq::<MapperInfoV>::empty());
        assert(r.names_view() =~= Seq::<Seq<char>>::empty());
        assert(r.search_paths_view() =~= seq!["lib/mappers"@, "lib/ffi/mappers"@]);
        r
    }

    /// Adds a search path after the others.
    pub fn add_search_path(&mut self, path: String)
        ensures
            final(self).wf() == old(self).wf(),
            final(self).mappers_map() == old(self).mappers_map(),
            final(self).entries_view() == old(self).entries_view(),
            final(self).names_view() == old(self).names_view(),
            final(self).search_paths_view() == old(self).search_paths_view().push(path@),
    {
        let ghost before = self.search_paths@;
        let ghost pv = path@;
        self.search_paths.push(path);
        assert(self.search_paths@.map_values(|s: String| s@) =~= before.map_values(|s: String| s@).push(pv));
    }

    /// The paths whose facts `find_mapper` reads, in the order it reads them.
    pub fn probe_paths(&self, name: &str, custom_path: Option<&str>) -> (v: Vec<String>)
        ensures
            custom_path matches Some(p) ==> v@.map_values(|s: String| s@) == seq![p@],
            custom_path is None ==> forall|i: int, k: int| 0 <= i < self.search_paths_view().len() && 0 <= k < 3
                ==> #[trigger] v@[3 * i + k]@ == places(self.search_paths_view()[i], name@)[k],
            custom_path is None ==> v@.len() == 3 * self.search_paths_view().len(),
    {
        let mut v: Vec<String> = Vec::new();
        match custom_path {
            Some(p) => {
                v.push(owned(p));
                assert(v@.map_values(|s: String| s@) =~= seq![p@]);
            }
            None => {
                let mut file = owned(name);
                file.append("_mapper.bv");
                let mut direct = owned(name);
                direct.append(".bv");
                let mut i: usize = 0;
                while i < self.search_paths.len()
                    invariant
                        i <= self.search_paths@.len(),
                        v@.len() == 3 * i,
                        file@ == name@ + "_mapper.bv"@,
                        direct@ == name@ + ".bv"@,
                        forall|j: int, k: int| 0 <= j < i && 0 <= k < 3
                            ==> #[trigger] v@[3 * j + k]@ == places(self.search_paths_view()[j], name@)[k],
                    decreases self.search_paths@.len() - i,
                {
                    let base = self.search_paths[i].as_str();
                    assert(self.search_paths_view()[i as int] == base@);
                    v.push(join(base, name));
                    v.push(join(base, file.as_str()));
                    v.push(join(base, direct.as_str()));
                    assert forall|j: int, k: int| 0 <= j < i + 1 && 0 <= k < 3
                        implies #[trigger] v@[3 * j + k]@ == places(self.search_paths_view()[j], name@)[k] by {
                        if j == i {
                            assert(3 * j + k == 3 * i + k);
                        }
                    }
                    i = i + 1;
                }
            }
        }
        v
    }

    /// Finds a mapper: at the explicit path when one is given (if it exists
    /// or names a file with an extension), else in the search paths.
    pub fn find_mapper(&self, name: &str, custom_path: Option<&str>, facts: &Vec<PathFacts>) -> (r: Option<MapperInfo>)
        ensures
            match (r, found(self.search_paths_view(), name@, opt_chars(custom_path), facts@)) {
                (Some(m), Some(v)) => m@ == v,
                (None, None) => true,
                _ => false,
            },
    {
        match custom_path {
            Some(p) => {
                let f = lookup_facts(facts, p);
                if f.exists || f.has_extension {
                    let t = if f.extension_is_bv {
                        MapperType::Brief
                    } else if f.has_cargo_toml {
                        MapperType::Rust
                    } else {
                        MapperType::Brief
                    };
                    Some(MapperInfo { name: owned(name), path: owned(p), mapper_type: t })
                } else {
                    None
                }
            }
            None => {
                let mut file = owned(name);
                file.append("_mapper.bv");
                let mut direct = owned(name);
                direct.append(".bv");
                let ghost bases = self.search_paths_view();
                let mut i: usize = 0;
                assert(bases.subrange(0, bases.len() as int) =~= bases);
                while i < self.search_paths.len()
                    invariant
                        i <= self.search_paths@.len(),
                        custom_path is None,
                        bases == self.search_paths_view(),
                        file@ == name@ + "_mapper.bv"@,
                        direct@ == name@ + ".bv"@,
                        search(bases, name@, facts@) == search(bases.subrange(i as int, bases.len() as int), name@, facts@),
                    decreases self.search_paths@.len() - i,
                {
                    let ghost rest = bases.subrange(i as int, bases.len() as int);
                    assert(rest.drop_first() =~= bases.subrange(i + 1, bases.len() as int));
                    let base = self.search_paths[i].as_str();
                    assert(rest[0] == base@);
                    let d = join(base, name);
                    if lookup_facts(facts, d.as_str()).exists {
                        return Some(MapperInfo { name: owned(name), path: d, mapper_type: MapperType::Brief });
                    }
                    let fpath = join(base, file.as_str());
                    if lookup_facts(facts, fpath.as_str()).exists {
                        return Some(MapperInfo { name: owned(name), path: fpath, mapper_type: MapperType::Brief });
                    }
                    let dpath = join(base, direct.as_str());
                    if lookup_facts(facts, dpath.as_str()).exists {
                        return Some(MapperInfo { name: owned(name), path: dpath, mapper_type: MapperType::Brief });
                    }
                    i = i + 1;
                }
                None
            }
        }
    }

    /// Registers a mapper under its name, replacing one of the same name.
    pub fn register(&mut self, info: MapperInfo)
        requires
            old(self).wf(),
        ensures
            final(self).wf(),
            final(self).mappers_map() == old(self).mappers_map().insert(info.name@, info@),
            final(self).names_view() == (match key_index(old(self).names_view(), info.name@) {
                Some(_) => old(self).names_view(),
                None => old(self).names_view().push(info.name@),
            }),
            final(self).entries_view() == (match key_index(old(self).names_view(), info.name@) {
                Some(i) => old(self).entries_view().update(i, info@),
                None => old(self).entries_view().push(info@),
            }),
            final(self).search_paths_view() == old(self).search_paths_view(),
    {
        let ghost before = self.mappers@;
        let key = info.name.clone();
        let ghost iv = info@;
        match find_key(&self.mappers, key.as_str()) {
            Some(i) => {
                let k = self.mappers[i].0.clone();
                self.mappers.set(i, (k, info));
            }
            None => {
                self.mappers.push((key, info));
            }
        }
        proof {
            lemma_key_index(keys_of(before), key@);
            assert(keys_of(self.mappers@) =~= keys_of(table_insert(before, key, info)));
            assert(self.names_view() =~= (match key_index(keys_of(before), info.name@) {
                Some(_) => keys_of(before),
                None => keys_of(before).push(info.name@),
            }));
            assert(self.entries_view() =~= (match key_index(keys_of(before), info.name@) {
                Some(i) => before.map_values(|e: (String, MapperInfo)| e.1@).update(i, iv),
                None => before.map_values(|e: (String, MapperInfo)| e.1@).push(iv),
            }));
            lemma_table_insert(before, key, info);
            assert(keys_of(self.mappers@) =~= keys_of(table_insert(before, key, info)));
            assert(self.mappers_map() =~= table_map(before).insert(key@, info).map_values(|m: MapperInfo| m@));
            assert(table_map(before).insert(key@, info).map_values(|m: MapperInfo| m@)
                =~= table_map(before).map_values(|m: MapperInfo| m@).insert(key@, iv));
        }
    }

    /// The registered mappers, each once.
    pub fn all_mappers(&self) -> (v: Vec<MapperInfo>)
        ensures
            info_views(v@) == self.entries_view(),
    {
        let mut v: Vec<MapperInfo> = Vec::new();
        let mut i: usize = 0;
        while i < self.mappers.len()
            invariant
                i <= self.mappers@.len(),
                v@.len() == i,
                forall|j: int| 0 <= j < i ==> (#[trigger] v@[j])@ == self.mappers@[j].1@,
            decreases self.mappers@.len() - i,
        {
            v.push(self.mappers[i].1.copy());
            i = i + 1;
        }
        assert(info_views(v@) =~= self.entries_view());
        v
    }
}

impl Default for MapperRegistry {
    fn default() -> (r: Self)
        ensures
            r.wf(),
            r.mappers_map() == Map::<Seq<char>, MapperInfoV>::empty(),
            r.entries_view() == Seq::<MapperInfoV>::empty(),
            r.names_view() == Seq::<Seq<char>>::empty(),
            r.search_paths_view() == seq!["lib/mappers"@, "lib/ffi/mappers"@],
    {
        Self::new()
    }
}

/// A registry with the default search paths.
pub fn create_registry() -> (r: MapperRegistry)
    ensures
        r.wf(),
        r.mappers_map() == Map::<Seq<char>, MapperInfoV>::empty(),
        r.entries_view() == Seq::<MapperInfoV>::empty(),
        r.names_view() == Seq::<Seq<char>>::empty(),
        r.search_paths_view() == seq!["lib/mappers"@, "lib/ffi/mappers"@],
{
    MapperRegistry::new()
}

/// Errors of mapper discovery.
#[derive(Debug)]
pub enum MapperError {
    NotFound(String),
    InvalidPath(String),
    LoadFailed(String),
}

pub open spec fn mapper_error_text(e: MapperError) -> Seq<char> {
    match e {
        MapperError::NotFound(n) => "Mapper not found: "@ + n@,
        MapperError::InvalidPath(p) => "Invalid mapper path: "@ + p@,
        MapperError::LoadFailed(m) => "Failed to load mapper: "@ + m@,
    }
}

impl MapperError {
    pub fn to_string(&self) -> (s: String)
        ensures
            s@ == mapper_error_text(*self),
    {
        let (pre, x) = match self {
            MapperError::NotFound(n) => ("Mapper not found: ", n),
            MapperError::InvalidPath(p) => ("Invalid mapper path: ", p),
            MapperError::LoadFailed(m) => ("Failed to load mapper: ", m),
        };
        let mut s = owned(pre);
        s.append(x.as_str());
        s
    }
}


/// In a well-formed registry the list of mappers and the map by name agree:
/// the `i`-th mapper is what the map holds for the `i`-th name, and the names
/// are exactly the map's keys, each once.
pub proof fn law_entries_match_map(r: &MapperRegistry)
    requires
        r.wf(),
    ensures
        r.names_view().len() == r.entries_view().len(),
        keys_distinct(r.names_view()),
        r.mappers_map().dom() == r.names_view().to_set(),
        forall|i: int| 0 <= i < r.names_view().len() ==> r.mappers_map()[#[trigger] r.names_view()[i]] == r.entries_view()[i],
{
    let ks = keys_of(r.mappers@);
    assert forall|i: int| 0 <= i < ks.len() implies key_index(ks, #[trigger] ks[i]) == Some(i) by {
        lemma_first_index_is(ks.len(), crate::table::key_pred(ks, ks[i]), i);
    }
    assert forall|k: Seq<char>| r.mappers_map().dom().contains(k) <==> #[trigger] ks.to_set().contains(k) by {
        lemma_key_index(ks, k);
        if ks.contains(k) {
            let j = choose|j: int| 0 <= j < ks.len() && ks[j] == k;
            assert(key_index(ks, ks[j]) == Some(j));
        }
        if key_index(ks, k) is Some {
            assert(ks[key_index(ks, k)->0] == k);
        }
    }
    assert(r.mappers_map().dom() =~= ks.to_set());
}

} // verus!
