//! The statements of a Brief Control program and the board description
//! (`.ebv`) they are checked against.

use vstd::prelude::*;

verus! {

/// The optional string as a sequence.
pub open spec fn opt_chars(o: Option<String>) -> Option<Seq<char>> {
    match o {
        Some(s) => Some(s@),
        None => None,
    }
}

/// A `control` block: a name and its statements.
#[derive(Debug, Clone, PartialEq)]
pub struct ControlBlock {
    pub name: String,
    pub stmts: Vec<ControlStmt>,
}

#[derive(Debug, Clone, PartialEq)]
pub enum ControlStmt {
    Target(Vec<String>),
    Partition(PartitionStmt),
    Route(RouteStmt),
    Mount(MountStmt),
    Unmount(UnmountStmt),
    Fence(FenceStmt),
    Timeout(TimeoutStmt),
}

#[derive(Debug, Clone, PartialEq)]
pub struct PartitionStmt {
    pub using_ref: String,
    pub tile_ref: String,
    pub slot_id: Option<String>,
}

#[derive(Debug, Clone, PartialEq)]
pub struct RouteStmt {
    pub route_name: String,
    pub from_tile: Option<String>,
    pub to_tile: Option<String>,
    pub port_ref: String,
}

#[derive(Debug, Clone, PartialEq)]
pub struct MountStmt {
    pub using_ref: String,
    pub tile_ref: String,
    pub slot_id: Option<String>,
}

#[derive(Debug, Clone, PartialEq)]
pub struct UnmountStmt {
    pub using_ref: String,
    pub tile_ref: Option<String>,
}

#[derive(Debug, Clone, PartialEq)]
pub struct FenceStmt {
    pub slot_id: String,
    pub action: FenceAction,
}

#[derive(Debug, Clone, Copy, PartialEq, Eq)]
pub enum FenceAction {
    Enable,
    Disable,
}

#[derive(Debug, Clone, PartialEq)]
pub struct TimeoutStmt {
    pub value: u64,
    pub unit: TimeoutUnit,
}

#[derive(Debug, Clone, Copy, PartialEq, Eq)]
pub enum TimeoutUnit {
    Ms,
    Sec,
    Min,
}

/// A statement as a mathematical value.
pub enum ControlStmtV {
    Target(Seq<Seq<char>>),
    Partition { using_ref: Seq<char>, tile_ref: Seq<char>, slot_id: Option<Seq<char>> },
    Route { route_name: Seq<char>, from_tile: Option<Seq<char>>, to_tile: Option<Seq<char>>, port_ref: Seq<char> },
    Mount { using_ref: Seq<char>, tile_ref: Seq<char>, slot_id: Option<Seq<char>> },
    Unmount { using_ref: Seq<char>, tile_ref: Option<Seq<char>> },
    Fence { slot_id: Seq<char>, action: FenceAction },
    Timeout { value: u64, unit: TimeoutUnit },
}

pub open spec fn string_views(v: Seq<String>) -> Seq<Seq<char>> {
    v.map_values(|s: String| s@)
}

impl View for ControlStmt {
    type V = ControlStmtV;

    open spec fn view(&self) -> ControlStmtV {
        match self {
            ControlStmt::Target(t) => ControlStmtV::Target(string_views(t@)),
            ControlStmt::Partition(p) => ControlStmtV::Partition {
                using_ref: p.using_ref@,
                tile_ref: p.tile_ref@,
                slot_id: opt_chars(p.slot_id),
            },
            ControlStmt::Route(r) => ControlStmtV::Route {
                route_name: r.route_name@,
                from_tile: opt_chars(r.from_tile),
                to_tile: opt_chars(r.to_tile),
                port_ref: r.port_ref@,
            },
            ControlStmt::Mount(m) => ControlStmtV::Mount {
                using_ref: m.using_ref@,
                tile_ref: m.tile_ref@,
                slot_id: opt_chars(m.slot_id),
            },
            ControlStmt::Unmount(u) => ControlStmtV::Unmount { using_ref: u.using_ref@, tile_ref: opt_chars(u.tile_ref) },
            ControlStmt::Fence(f) => ControlStmtV::Fence { slot_id: f.slot_id@, action: f.action },
            ControlStmt::Timeout(t) => ControlStmtV::Timeout { value: t.value, unit: t.unit },
        }
    }
}

pub open spec fn stmt_views(v: Seq<ControlStmt>) -> Seq<ControlStmtV> {
    v.map_values(|s: ControlStmt| s@)
}

pub struct ControlBlockV {
    pub name: Seq<char>,
    pub stmts: Seq<ControlStmtV>,
}

impl View for ControlBlock {
    type V = ControlBlockV;

    open spec fn view(&self) -> ControlBlockV {
        ControlBlockV { name: self.name@, stmts: stmt_views(self.stmts@) }
    }
}

pub open spec fn block_views(v: Seq<ControlBlock>) -> Seq<ControlBlockV> {
    v.map_values(|b: ControlBlock| b@)
}

/// A parsed program: its `using` declarations and its control blocks.
#[derive(Debug, Clone, PartialEq)]
pub struct BvcProgram {
    pub using_decls: Vec<String>,
    pub control_blocks: Vec<ControlBlock>,
}

pub struct BvcProgramV {
    pub using_decls: Seq<Seq<char>>,
    pub control_blocks: Seq<ControlBlockV>,
}

impl View for BvcProgram {
    type V = BvcProgramV;

    open spec fn view(&self) -> BvcProgramV {
        BvcProgramV { using_decls: string_views(self.using_decls@), control_blocks: block_views(self.control_blocks@) }
    }
}

/// A partition of the board: its LUT count (`cells`) and name.
#[derive(Debug, Clone)]
pub struct PartitionDef {
    pub lut_count: Option<u32>,
    pub name: Option<String>,
}

/// A tether the board offers.
#[derive(Debug, Clone)]
pub struct EbvTetherDef {
    pub tether_type: Option<String>,
    pub query: Option<String>,
}

/// An isolation moat.
#[derive(Debug, Clone)]
pub struct MoatDef {
    pub width: Option<String>,
}

/// The `[ebv]` table of a board description. Each table is a list of named
/// entries in which no name occurs twice.
#[derive(Debug, Clone)]
pub struct EbvHeader {
    pub board: Option<String>,
    pub soc: Option<String>,
    pub partitions: Option<Vec<(String, PartitionDef)>>,
    pub tethers: Option<Vec<(String, EbvTetherDef)>>,
    pub moats: Option<Vec<(String, MoatDef)>>,
}

/// A board description.
#[derive(Debug, Clone)]
pub struct EbvData {
    pub ebv: EbvHeader,
}

/// The names of a table's entries.
pub open spec fn entry_names<T>(v: Seq<(String, T)>) -> Seq<Seq<char>> {
    v.map_values(|e: (String, T)| e.0@)
}

/// No name occurs twice.
pub open spec fn names_distinct(names: Seq<Seq<char>>) -> bool {
    forall|i: int, j: int| 0 <= i < j < names.len() ==> names[i] != names[j]
}

impl EbvData {
    /// The board description's tables are maps: no name occurs twice.
    pub open spec fn wf(&self) -> bool {
        &&& (self.ebv.partitions matches Some(p) ==> names_distinct(entry_names(p@)))
        &&& (self.ebv.tethers matches Some(t) ==> names_distinct(entry_names(t@)))
        &&& (self.ebv.moats matches Some(m) ==> names_distinct(entry_names(m@)))
    }

    /// The partition table as (name, LUT count) pairs, if there is one.
    pub open spec fn partition_table(&self) -> Option<Seq<(Seq<char>, Option<u32>)>> {
        match self.ebv.partitions {
            Some(p) => Some(p@.map_values(|e: (String, PartitionDef)| (e.0@, e.1.lut_count))),
            None => None,
        }
    }

    /// The partition names, if the description has a partition table.
    pub open spec fn partition_names(&self) -> Option<Seq<Seq<char>>> {
        match self.ebv.partitions {
            Some(p) => Some(entry_names(p@)),
            None => None,
        }
    }
}

} // verus!
