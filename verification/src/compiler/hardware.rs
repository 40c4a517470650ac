//! The hardware library: target profiles (vendor, pragmas, synthesis and
//! timing settings) and bus interface profiles, looked up by name.
//!
//! Reading the profiles from their TOML files is the program's part; the
//! library gathers them, as a map from names to profiles in which a later
//! profile of the same name replaces an earlier one.

use vstd::prelude::*;
use crate::text::owned;
use crate::table::{keys_of, key_index, table_map, table_insert, lemma_table_insert, lemma_key_index, find_key};

verus! {

#[derive(Debug, Clone)]
pub struct TargetProfile {
    pub vendor: String,
    pub family: String,
    pub part_prefix: String,
    /// Pragmas by memory type; no memory type occurs twice.
    pub memory_pragmas: Vec<(String, String)>,
    pub logic_pragmas: Vec<(String, String)>,
    pub synthesis: SynthesisConfig,
    pub constraints: ConstraintsConfig,
}

#[derive(Debug, Clone, Default)]
pub struct SynthesisConfig {
    pub tool: String,
    pub mode: String,
    pub script_ext: String,
    pub default_part: String,
}

#[derive(Debug, Clone, Default)]
pub struct ConstraintsConfig {
    pub max_frequency_hz: u64,
    pub timing_units: String,
}

#[derive(Debug, Clone)]
pub struct InterfaceProfile {
    pub name: String,
    pub interface_type: String,
    pub address_width: u32,
    pub data_width: u32,
    pub port_map: Vec<(String, String)>,
    pub axi4_full: Option<Axi4FullConfig>,
}

#[derive(Debug, Clone, Default)]
pub struct Axi4FullConfig {
    pub async_read: bool,
    pub async_write: bool,
    pub max_burst_length: u32,
}

/// The target and interface profiles, by name.
#[derive(Debug, Clone)]
pub struct HardwareLib {
    pub targets: Vec<(String, TargetProfile)>,
    pub interfaces: Vec<(String, InterfaceProfile)>,
}

/// The memory pragmas of a target, as a map from memory types.
pub open spec fn pragma_map(t: TargetProfile) -> Map<Seq<char>, Seq<char>> {
    table_map(t.memory_pragmas@).map_values(|s: String| s@)
}

/// The pragma for a memory type on a target, if both are known.
pub open spec fn memory_pragma(targets: Map<Seq<char>, TargetProfile>, target: Seq<char>, mem_type: Seq<char>) -> Option<Seq<char>> {
    if targets.dom().contains(target) && pragma_map(targets[target]).dom().contains(mem_type) {
        Some(pragma_map(targets[target])[mem_type])
    } else {
        None
    }
}

impl HardwareLib {
    /// A library without profiles.
    pub fn new() -> (r: Self)
        ensures
            r.targets@.len() == 0,
            r.interfaces@.len() == 0,
    {
        HardwareLib { targets: Vec::new(), interfaces: Vec::new() }
    }

    /// Adds a target profile under a name, replacing one of the same name.
    pub fn add_target(&mut self, name: String, profile: TargetProfile)
        ensures
            table_map(final(self).targets@) == table_map(old(self).targets@).insert(name@, profile),
            final(self).interfaces@ == old(self).interfaces@,
    {
        let ghost before = self.targets@;
        match find_key(&self.targets, name.as_str()) {
            Some(i) => {
                let k = self.targets[i].0.clone();
                self.targets.set(i, (k, profile));
            }
            None => {
                self.targets.push((name, profile));
            }
        }
        proof {
            lemma_table_insert(before, name, profile);
        }
    }

    /// Adds an interface profile under its own name, replacing one of the
    /// same name.
    pub fn add_interface(&mut self, profile: InterfaceProfile)
        ensures
            table_map(final(self).interfaces@) == table_map(old(self).interfaces@).insert(profile.name@, profile),
            final(self).targets@ == old(self).targets@,
    {
        let ghost before = self.interfaces@;
        let name = profile.name.clone();
        match find_key(&self.interfaces, name.as_str()) {
            Some(i) => {
                let k = self.interfaces[i].0.clone();
                self.interfaces.set(i, (k, profile));
            }
            None => {
                self.interfaces.push((name, profile));
            }
        }
        proof {
            lemma_table_insert(before, name, profile);
        }
    }

    /// The pragma that `target` gives for memories of type `mem_type`.
    pub fn get_memory_pragma(&self, target: &str, mem_type: &str) -> (r: Option<String>)
        ensures
            match (r, memory_pragma(table_map(self.targets@), target@, mem_type@)) {
                (Some(a), Some(b)) => a@ == b,
                (None, None) => true,
                _ => false,
            },
    {
        match find_key(&self.targets, target) {
            Some(i) => {
                proof { lemma_key_index(keys_of(self.targets@), target@); }
                let t = &self.targets[i].1;
                match find_key(&t.memory_pragmas, mem_type) {
                    Some(j) => {
                        proof { lemma_key_index(keys_of(t.memory_pragmas@), mem_type@); }
                        Some(t.memory_pragmas[j].1.clone())
                    }
                    None => None,
                }
            }
            None => None,
        }
    }

    /// The interface profile of a name.
    pub fn get_interface(&self, name: &str) -> (r: Option<&InterfaceProfile>)
        ensures
            match r {
                Some(p) => table_map(self.interfaces@).dom().contains(name@) && *p == table_map(self.interfaces@)[name@],
                None => !table_map(self.interfaces@).dom().contains(name@),
            },
    {
        match find_key(&self.interfaces, name) {
            Some(i) => {
                proof { lemma_key_index(keys_of(self.interfaces@), name@); }
                Some(&self.interfaces[i].1)
            }
            None => None,
        }
    }
}

/// Why the hardware library could not be loaded.
#[derive(Debug)]
pub enum HardwareLibError {
    IoError(String),
    ParseError(String),
    NotFound(String),
}

impl HardwareLibError {
    /// `IO error: ..`, `Parse error: ..` or `Not found: ..`.
    pub fn to_string(&self) -> (s: String)
        ensures
            s@ == match self {
                HardwareLibError::IoError(m) => "IO error: "@ + m@,
                HardwareLibError::ParseError(m) => "Parse error: "@ + m@,
                HardwareLibError::NotFound(m) => "Not found: "@ + m@,
            },
    {
        match self {
            HardwareLibError::IoError(m) => {
                let mut s = owned("IO error: ");
                s.append(m.as_str());
                s
            }
            HardwareLibError::ParseError(m) => {
                let mut s = owned("Parse error: ");
                s.append(m.as_str());
                s
            }
            HardwareLibError::NotFound(m) => {
                let mut s = owned("Not found: ");
                s.append(m.as_str());
                s
            }
        }
    }
}

} // verus!
