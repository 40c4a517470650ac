//! The tether engine: the shell's model of the fabric, its mount table and
//! its storage, and the queries ("tethers") the shell can make of it.

use vstd::prelude::*;
use crate::text::{owned, push_decimal, decimal, chars_of, eq_str, chars_eq};
use crate::seqs::{first_index, lemma_first_index, lemma_first_index_is, lemma_first_index_none};

verus! {

/// A fabric tile. BRAM capacity is kept in tenths of a megabyte.
#[derive(Debug, Clone)]
pub struct TileInfo {
    pub tile_id: u32,
    pub lut_count: u32,
    pub dsp_count: u32,
    pub bram_tenths_mb: u32,
    pub connected: bool,
}

/// What a reconfigurable slot holds.
#[derive(Debug, Clone)]
pub struct MountInfo {
    pub slot: String,
    pub bitstream_name: Option<String>,
    pub active: bool,
    pub lut_count: u32,
}

pub struct MountInfoV {
    pub slot: Seq<char>,
    pub bitstream_name: Option<Seq<char>>,
    pub active: bool,
    pub lut_count: u32,
}

impl View for MountInfo {
    type V = MountInfoV;

    open spec fn view(&self) -> MountInfoV {
        MountInfoV {
            slot: self.slot@,
            bitstream_name: match self.bitstream_name {
                Some(n) => Some(n@),
                None => None,
            },
            active: self.active,
            lut_count: self.lut_count,
        }
    }
}

pub fn copy_opt_string(o: &Option<String>) -> (r: Option<String>)
    ensures
        match (o, r) {
            (Some(a), Some(b)) => a@ == b@,
            (None, None) => true,
            _ => false,
        },
{
    match o {
        Some(s) => Some(s.clone()),
        None => None,
    }
}

impl MountInfo {
    /// A copy of this record.
    pub fn copy(&self) -> (r: Self)
        ensures
            r@ == self@,
    {
        MountInfo {
            slot: self.slot.clone(),
            bitstream_name: copy_opt_string(&self.bitstream_name),
            active: self.active,
            lut_count: self.lut_count,
        }
    }
}

/// A file on the SD card.
#[derive(Debug, Clone)]
pub struct StorageInfo {
    pub filename: String,
    pub size: u64,
    pub verified: bool,
}

pub struct StorageInfoV {
    pub filename: Seq<char>,
    pub size: u64,
    pub verified: bool,
}

impl View for StorageInfo {
    type V = StorageInfoV;

    open spec fn view(&self) -> StorageInfoV {
        StorageInfoV { filename: self.filename@, size: self.size, verified: self.verified }
    }
}

impl StorageInfo {
    pub fn copy(&self) -> (r: Self)
        ensures
            r@ == self@,
    {
        StorageInfo { filename: self.filename.clone(), size: self.size, verified: self.verified }
    }
}

/// A fence as the shell reports it.
#[derive(Debug, Clone)]
pub struct FenceInfo {
    pub fence_id: String,
    pub active: bool,
    pub mode: String,
}

pub struct FenceInfoV {
    pub fence_id: Seq<char>,
    pub active: bool,
    pub mode: Seq<char>,
}

impl View for FenceInfo {
    type V = FenceInfoV;

    open spec fn view(&self) -> FenceInfoV {
        FenceInfoV { fence_id: self.fence_id@, active: self.active, mode: self.mode@ }
    }
}

impl FenceInfo {
    pub fn copy(&self) -> (r: Self)
        ensures
            r@ == self@,
    {
        FenceInfo { fence_id: self.fence_id.clone(), active: self.active, mode: self.mode.clone() }
    }
}

/// Usage of a memory region.
#[derive(Debug, Clone)]
pub struct MemoryInfo {
    pub region: String,
    pub used_bytes: u64,
    pub total_bytes: u64,
}

/// Kernel version record.
#[derive(Debug, Clone)]
pub struct KernelInfo {
    pub version: String,
    pub build_date: String,
}

/// State of one fabric tile.
#[derive(Debug, Clone)]
pub struct FabricState {
    pub tile_id: u32,
    pub state: String,
    pub mounted_bitstream: Option<String>,
}

/// The answer to a tether query.
#[derive(Debug, Clone)]
pub struct TetherResponse {
    pub query: String,
    pub timestamp: String,
    pub result: TetherResult,
}

/// The payload of a tether answer. `Custom` carries a JSON document as bytes.
#[derive(Debug, Clone)]
pub enum TetherResult {
    Tiles(Vec<TileInfo>),
    Mounts(Vec<MountInfo>),
    Storage(Vec<StorageInfo>),
    Fences(Vec<FenceInfo>),
    Memory(Vec<MemoryInfo>),
    Kernel(KernelInfo),
    Fabric(Vec<FabricState>),
    Custom(Vec<u8>),
}

/// Why a tether request was refused.
#[derive(Debug, Clone, PartialEq)]
pub enum TetherError {
    UnknownTether(String),
    UnknownSlot(String),
}

/// The message of a refusal.
pub open spec fn tether_error_text(e: TetherError) -> Seq<char> {
    match e {
        TetherError::UnknownTether(s) => "Unknown tether: "@ + s@,
        TetherError::UnknownSlot(s) => "Unknown slot: "@ + s@,
    }
}

impl TetherError {
    pub fn message(&self) -> (s: String)
        ensures
            s@ == tether_error_text(*self),
    {
        match self {
            TetherError::UnknownTether(t) => { let mut s = owned("Unknown tether: "); s.append(t.as_str()); s }
            TetherError::UnknownSlot(t) => { let mut s = owned("Unknown slot: "); s.append(t.as_str()); s }
        }
    }
}

/// What the shell shows before a proposition: capacity, storage and mounts.
#[derive(Debug, Clone)]
pub struct PropositionalContext {
    pub kernel_version: String,
    pub total_luts: u32,
    pub available_luts: u32,
    pub mounted: Vec<MountInfo>,
    pub storage: Vec<StorageInfo>,
}

pub open spec fn mount_views(v: Seq<MountInfo>) -> Seq<MountInfoV> {
    v.map_values(|m: MountInfo| m@)
}

pub open spec fn storage_views(v: Seq<StorageInfo>) -> Seq<StorageInfoV> {
    v.map_values(|m: StorageInfo| m@)
}

pub open spec fn fence_views(v: Seq<FenceInfo>) -> Seq<FenceInfoV> {
    v.map_values(|m: FenceInfo| m@)
}

pub open spec fn opt_view(o: Option<String>) -> Option<Seq<char>> {
    match o {
        Some(s) => Some(s@),
        None => None,
    }
}

/// The tethers the engine answers.
pub open spec fn is_tether(name: Seq<char>) -> bool {
    ||| name == "fabric_state"@
    ||| name == "mount_table"@
    ||| name == "storage_list"@
    ||| name == "fence_status"@
    ||| name == "kernel_version"@
}

/// The text of a verified flag.
pub open spec fn verified_word(v: bool) -> Seq<char> {
    if v { "VERIFIED"@ } else { "UNVERIFIED"@ }
}

/// The storage section of the context text.
pub open spec fn storage_lines(st: Seq<StorageInfoV>) -> Seq<char>
    decreases st.len(),
{
    if st.len() == 0 {
        Seq::empty()
    } else {
        storage_lines(st.drop_last()) + "- "@ + st.last().filename + "  ["@ + decimal(st.last().size as nat)
            + " bytes] ["@ + verified_word(st.last().verified) + "]\n"@
    }
}

/// The mount section of the context text: mounts without a bitstream are skipped.
pub open spec fn mount_lines(ms: Seq<MountInfoV>) -> Seq<char>
    decreases ms.len(),
{
    if ms.len() == 0 {
        Seq::empty()
    } else {
        mount_lines(ms.drop_last()) + match ms.last().bitstream_name {
            Some(name) => "- "@ + name + " on "@ + ms.last().slot + "  ["@ + decimal(ms.last().lut_count as nat)
                + " LUTs] ["@ + (if ms.last().active { "ACTIVE"@ } else { "INACTIVE"@ }) + "]\n"@,
            None => Seq::empty(),
        }
    }
}

/// The context text, as the shell prints it.
pub open spec fn context_text(total: u32, available: u32, mounted: Seq<MountInfoV>, storage: Seq<StorageInfoV>) -> Seq<char> {
    "MOORE SHELL v0.1\n"@ + "\u{2550}\u{2550}\u{2550}\u{2550}\u{2550}\u{2550}\u{2550}\u{2550}\u{2550}\u{2550}\u{2550}\u{2550}\u{2550}\u{2550}\u{2550}\u{2550}\u{2550}\u{2550}\u{2550}\u{2550}\u{2550}\u{2550}\u{2550}\u{2550}\u{2550}\u{2550}\u{2550}\u{2550}\u{2550}\u{2550}\u{2550}\u{2550}\u{2550}\u{2550}\u{2550}\u{2550}\u{2550}\u{2550}\u{2550}\u{2550}\u{2550}\u{2550}\u{2550}\u{2550}\u{2550}\u{2550}\u{2550}\u{2550}\u{2550}\u{2550}\u{2550}\u{2550}\u{2550}\u{2550}\u{2550}\u{2550}\u{2550}\u{2550}\n\n"@
        + "FABRIC:\n"@ + "- TOTAL CAPACITY: "@ + decimal(total as nat) + " LUTs\n"@
        + "- AVAILABLE:        "@ + decimal(available as nat) + " LUTs\n"@
        + "\nSTORAGE (SD Card):\n"@
        + (if storage.len() == 0 { "- (empty)\n"@ } else { storage_lines(storage) })
        + "\nMOUNTED:\n"@
        + (if mounted.len() == 0 { "- None.\n"@ } else { mount_lines(mounted) })
        + "\nPROPOSITIONAL CONTEXT READY.\n"@ + "WHAT IS YOUR PROPOSITION?\n"@
}

impl PropositionalContext {
    /// The context of an empty 256 000-LUT fabric.
    pub fn new() -> (c: Self)
        ensures
            c.kernel_version@ == "0.1.0"@,
            c.total_luts == 256_000,
            c.available_luts == 256_000,
            c.mounted@.len() == 0,
            c.storage@.len() == 0,
    {
        PropositionalContext {
            kernel_version: owned("0.1.0"),
            total_luts: 256_000,
            available_luts: 256_000,
            mounted: Vec::new(),
            storage: Vec::new(),
        }
    }

    /// The context as the shell prints it.
    pub fn to_string(&self) -> (s: String)
        ensures
            s@ == context_text(self.total_luts, self.available_luts, mount_views(self.mounted@), storage_views(self.storage@)),
    {
        let mut s = owned("MOORE SHELL v0.1\n");
        s.append("\u{2550}\u{2550}\u{2550}\u{2550}\u{2550}\u{2550}\u{2550}\u{2550}\u{2550}\u{2550}\u{2550}\u{2550}\u{2550}\u{2550}\u{2550}\u{2550}\u{2550}\u{2550}\u{2550}\u{2550}\u{2550}\u{2550}\u{2550}\u{2550}\u{2550}\u{2550}\u{2550}\u{2550}\u{2550}\u{2550}\u{2550}\u{2550}\u{2550}\u{2550}\u{2550}\u{2550}\u{2550}\u{2550}\u{2550}\u{2550}\u{2550}\u{2550}\u{2550}\u{2550}\u{2550}\u{2550}\u{2550}\u{2550}\u{2550}\u{2550}\u{2550}\u{2550}\u{2550}\u{2550}\u{2550}\u{2550}\u{2550}\u{2550}\n\n");
        s.append("FABRIC:\n");
        s.append("- TOTAL CAPACITY: ");
        push_decimal(&mut s, self.total_luts as u64);
        s.append(" LUTs\n");
        s.append("- AVAILABLE:        ");
        push_decimal(&mut s, self.available_luts as u64);
        s.append(" LUTs\n");
        s.append("\nSTORAGE (SD Card):\n");
        if self.storage.len() == 0 {
            s.append("- (empty)\n");
        } else {
            let ghost base = s@;
            let mut i: usize = 0;
            while i < self.storage.len()
                invariant
                    i <= self.storage@.len(),
                    s@ == base + storage_lines(storage_views(self.storage@).subrange(0, i as int)),
                decreases self.storage@.len() - i,
            {
                let info = &self.storage[i];
                let ghost prev = s@;
                s.append("- ");
                s.append(info.filename.as_str());
                s.append("  [");
                push_decimal(&mut s, info.size);
                s.append(" bytes] [");
                if info.verified {
                    s.append("VERIFIED");
                } else {
                    s.append("UNVERIFIED");
                }
                s.append("]\n");
                proof {
                    let sv = storage_views(self.storage@);
                    assert(sv.subrange(0, i + 1).drop_last() =~= sv.subrange(0, i as int));
                    assert(sv.subrange(0, i + 1).last() == info@);
                }
                i = i + 1;
            }
            assert(storage_views(self.storage@).subrange(0, self.storage@.len() as int) =~= storage_views(self.storage@));
        }
        s.append("\nMOUNTED:\n");
        if self.mounted.len() == 0 {
            s.append("- None.\n");
        } else {
            let ghost base = s@;
            let mut i: usize = 0;
            while i < self.mounted.len()
                invariant
                    i <= self.mounted@.len(),
                    s@ == base + mount_lines(mount_views(self.mounted@).subrange(0, i as int)),
                decreases self.mounted@.len() - i,
            {
                let m = &self.mounted[i];
                match &m.bitstream_name {
                    Some(name) => {
                        s.append("- ");
                        s.append(name.as_str());
                        s.append(" on ");
                        s.append(m.slot.as_str());
                        s.append("  [");
                        push_decimal(&mut s, m.lut_count as u64);
                        s.append(" LUTs] [");
                        if m.active {
                            s.append("ACTIVE");
                        } else {
                            s.append("INACTIVE");
                        }
                        s.append("]\n");
                    }
                    None => {}
                }
                proof {
                    let mv = mount_views(self.mounted@);
                    assert(mv.subrange(0, i + 1).drop_last() =~= mv.subrange(0, i as int));
                    assert(mv.subrange(0, i + 1).last() == m@);
                }
                i = i + 1;
            }
            assert(mount_views(self.mounted@).subrange(0, self.mounted@.len() as int) =~= mount_views(self.mounted@));
        }
        s.append("\nPROPOSITIONAL CONTEXT READY.\n");
        s.append("WHAT IS YOUR PROPOSITION?\n");
        s
    }
}

impl Default for PropositionalContext {
    fn default() -> (c: Self)
        ensures
            c.total_luts == 256_000,
            c.available_luts == 256_000,
            c.mounted@.len() == 0,
            c.storage@.len() == 0,
    {
        Self::new()
    }
}

/// The mounts that hold a bitstream, in order.
pub open spec fn mounted_of(ms: Seq<MountInfoV>) -> Seq<MountInfoV>
    decreases ms.len(),
{
    if ms.len() == 0 {
        Seq::empty()
    } else if ms.last().bitstream_name is Some {
        mounted_of(ms.drop_last()).push(ms.last())
    } else {
        mounted_of(ms.drop_last())
    }
}

/// LUTs taken by the mounts that hold a bitstream.
pub open spec fn used_luts(ms: Seq<MountInfoV>) -> int
    decreases ms.len(),
{
    if ms.len() == 0 {
        0
    } else if ms.last().bitstream_name is Some {
        used_luts(ms.drop_last()) + ms.last().lut_count
    } else {
        used_luts(ms.drop_last())
    }
}

proof fn lemma_used_luts_nonneg(ms: Seq<MountInfoV>)
    ensures
        used_luts(ms) >= 0,
    decreases ms.len(),
{
    if ms.len() > 0 {
        lemma_used_luts_nonneg(ms.drop_last());
    }
}

proof fn lemma_used_luts_prefix(ms: Seq<MountInfoV>, i: int)
    requires
        0 <= i <= ms.len(),
    ensures
        used_luts(ms.subrange(0, i)) <= used_luts(ms),
    decreases ms.len() - i,
{
    if i < ms.len() {
        lemma_used_luts_prefix(ms, i + 1);
        assert(ms.subrange(0, i + 1).drop_last() =~= ms.subrange(0, i));
    } else {
        assert(ms.subrange(0, i) =~= ms);
    }
}

/// Index of the mount for `slot`.
pub open spec fn mount_index(ms: Seq<MountInfoV>, slot: Seq<char>) -> Option<int> {
    first_index(ms.len(), |i: int| ms[i].slot == slot)
}

/// The shell's model of the KV260 fabric.
pub struct TetherEngine {
    fabric: Vec<(String, TileInfo)>,
    mounts: Vec<MountInfo>,
    storage: Vec<StorageInfo>,
    fences: Vec<FenceInfo>,
}

impl TetherEngine {
    /// The slots and their mounts.
    pub closed spec fn mounts_view(self) -> Seq<MountInfoV> {
        mount_views(self.mounts@)
    }

    /// The files on the SD card.
    pub closed spec fn storage_view(self) -> Seq<StorageInfoV> {
        storage_views(self.storage@)
    }

    /// The active fences.
    pub closed spec fn fences_view(self) -> Seq<FenceInfoV> {
        fence_views(self.fences@)
    }

    /// The tiles, by name.
    pub closed spec fn fabric_view(self) -> Seq<(Seq<char>, TileInfo)> {
        self.fabric@.map_values(|t: (String, TileInfo)| (t.0@, t.1))
    }

    /// What a tile reports: its id, whether it is connected, and the
    /// bitstream mounted in the slot of the same name.
    pub open spec fn tile_answer(self, tile: (Seq<char>, TileInfo), f: FabricState) -> bool {
        &&& f.tile_id == tile.1.tile_id
        &&& f.state@ == (if tile.1.connected { "CONNECTED"@ } else { "DISCONNECTED"@ })
        &&& opt_view(f.mounted_bitstream) == match mount_index(self.mounts_view(), tile.0) {
            Some(j) => self.mounts_view()[j].bitstream_name,
            None => None,
        }
    }

    /// What the tether `name` answers.
    pub open spec fn answers(self, name: Seq<char>, result: TetherResult) -> bool {
        if name == "fabric_state"@ {
            result matches TetherResult::Fabric(v) && v@.len() == self.fabric_view().len()
                && forall|i: int| 0 <= i < v@.len() ==> self.tile_answer(self.fabric_view()[i], #[trigger] v@[i])
        } else if name == "mount_table"@ {
            result matches TetherResult::Mounts(v) && mount_views(v@) == self.mounts_view()
        } else if name == "storage_list"@ {
            result matches TetherResult::Storage(v) && storage_views(v@) == self.storage_view()
        } else if name == "fence_status"@ {
            result matches TetherResult::Fences(v) && fence_views(v@) == self.fences_view()
        } else {
            result matches TetherResult::Kernel(k) && k.version@ == "0.1.0"@ && k.build_date@ == "2026-04-24"@
        }
    }

    /// LUT capacity of `Tile_0`, the whole fabric.
    pub closed spec fn total_luts(self) -> int {
        match first_index(self.fabric@.len(), |i: int| self.fabric@[i].0@ == "Tile_0"@) {
            Some(i) => self.fabric@[i].1.lut_count as int,
            None => 256_000,
        }
    }

    /// The engine's model: `Tile_0` and the two reconfigurable partitions
    /// `RP_0` (40 000 LUTs) and `RP_1` (80 000 LUTs), both empty, and the two
    /// bitstreams on the SD card.
    pub fn new() -> (e: Self)
        ensures
            e.total_luts() == 256_000,
            e.mounts_view().len() == 2,
            e.mounts_view()[0].slot == "RP_0"@ && e.mounts_view()[0].bitstream_name is None
                && !e.mounts_view()[0].active && e.mounts_view()[0].lut_count == 40_000,
            e.mounts_view()[1].slot == "RP_1"@ && e.mounts_view()[1].bitstream_name is None
                && !e.mounts_view()[1].active && e.mounts_view()[1].lut_count == 80_000,
            e.storage_view().len() == 2,
            e.storage_view()[0] == (StorageInfoV { filename: "Imp_Core.writ"@, size: 1_234_567, verified: true }),
            e.storage_view()[1] == (StorageInfoV { filename: "Rendered_GPU.writ"@, size: 5_678_901, verified: true }),
    {
        let mut fabric: Vec<(String, TileInfo)> = Vec::new();
        fabric.push((owned("Tile_0"), TileInfo { tile_id: 0, lut_count: 256_000, dsp_count: 1248, bram_tenths_mb: 72, connected: true }));
        fabric.push((owned("RP_0"), TileInfo { tile_id: 0, lut_count: 40_000, dsp_count: 0, bram_tenths_mb: 18, connected: true }));
        fabric.push((owned("RP_1"), TileInfo { tile_id: 0, lut_count: 80_000, dsp_count: 0, bram_tenths_mb: 24, connected: true }));
        let mut mounts: Vec<MountInfo> = Vec::new();
        mounts.push(MountInfo { slot: owned("RP_0"), bitstream_name: None, active: false, lut_count: 40_000 });
        mounts.push(MountInfo { slot: owned("RP_1"), bitstream_name: None, active: false, lut_count: 80_000 });
        let mut storage: Vec<StorageInfo> = Vec::new();
        storage.push(StorageInfo { filename: owned("Imp_Core.writ"), size: 1_234_567, verified: true });
        storage.push(StorageInfo { filename: owned("Rendered_GPU.writ"), size: 5_678_901, verified: true });
        let e = TetherEngine { fabric, mounts, storage, fences: Vec::new() };
        proof {
            let p = |i: int| e.fabric@[i].0@ == "Tile_0"@;
            lemma_first_index_is(e.fabric@.len(), p, 0);
            assert(e.mounts_view()[0] == e.mounts@[0]@);
            assert(e.mounts_view()[1] == e.mounts@[1]@);
            assert(e.storage_view()[0] == e.storage@[0]@);
            assert(e.storage_view()[1] == e.storage@[1]@);
        }
        e
    }

    /// Whether the mounted bitstreams fit in the fabric, as the context
    /// requires.
    pub fn luts_fit(&self) -> (b: bool)
        ensures
            b == (used_luts(self.mounts_view()) <= self.total_luts()),
    {
        let ghost ms = self.mounts_view();
        let total = self.tile0_luts() as u64;
        let mut used: u64 = 0;
        let mut i: usize = 0;
        while i < self.mounts.len()
            invariant
                i <= self.mounts@.len(),
                ms == mount_views(self.mounts@),
                total as int == self.total_luts(),
                total <= u32::MAX,
                used as int == used_luts(ms.subrange(0, i as int)),
                used <= total,
            decreases self.mounts@.len() - i,
        {
            let m = &self.mounts[i];
            proof {
                assert(ms.subrange(0, i + 1).drop_last() =~= ms.subrange(0, i as int));
                assert(ms.subrange(0, i + 1).last() == m@);
            }
            if m.bitstream_name.is_some() {
                used = used + m.lut_count as u64;
            }
            if used > total {
                proof { lemma_used_luts_prefix(ms, i + 1); }
                return false;
            }
            i = i + 1;
        }
        assert(ms.subrange(0, self.mounts@.len() as int) =~= ms);
        true
    }

    fn tile0_luts(&self) -> (r: u32)
        ensures
            r as int == self.total_luts(),
    {
        let ghost p = |i: int| self.fabric@[i].0@ == "Tile_0"@;
        let mut i: usize = 0;
        while i < self.fabric.len()
            invariant
                i <= self.fabric@.len(),
                p == (|i: int| self.fabric@[i].0@ == "Tile_0"@),
                forall|j: int| 0 <= j < i ==> !#[trigger] p(j),
            decreases self.fabric@.len() - i,
        {
            let name = chars_of(self.fabric[i].0.as_str());
            if eq_str(name.as_slice(), "Tile_0") {
                proof { lemma_first_index_is(self.fabric@.len(), p, i as int); }
                return self.fabric[i].1.lut_count;
            }
            i = i + 1;
        }
        proof { lemma_first_index_none(self.fabric@.len(), p); }
        256_000
    }

    /// The context the shell shows: the mounts that hold a bitstream, the
    /// files on the card, the fabric's capacity and what is left of it.
    pub fn get_context(&self) -> (c: PropositionalContext)
        requires
            used_luts(self.mounts_view()) <= self.total_luts(),
        ensures
            c.kernel_version@ == "0.1.0"@,
            mount_views(c.mounted@) == mounted_of(self.mounts_view()),
            storage_views(c.storage@) == self.storage_view(),
            c.total_luts as int == self.total_luts(),
            c.available_luts as int == self.total_luts() - used_luts(self.mounts_view()),
    {
        let mut ctx = PropositionalContext::new();
        let mut mounted: Vec<MountInfo> = Vec::new();
        let mut used: u32 = 0;
        let ghost ms = self.mounts_view();
        let total = self.tile0_luts();
        let mut i: usize = 0;
        while i < self.mounts.len()
            invariant
                i <= self.mounts@.len(),
                ms == mount_views(self.mounts@),
                used_luts(ms) <= total,
                mount_views(mounted@) == mounted_of(ms.subrange(0, i as int)),
                used as int == used_luts(ms.subrange(0, i as int)),
            decreases self.mounts@.len() - i,
        {
            let m = &self.mounts[i];
            proof {
                assert(ms.subrange(0, i + 1).drop_last() =~= ms.subrange(0, i as int));
                assert(ms.subrange(0, i + 1).last() == m@);
                lemma_used_luts_prefix(ms, i + 1);
                lemma_used_luts_nonneg(ms.subrange(0, i as int));
            }
            if m.bitstream_name.is_some() {
                let ghost before = mounted@;
                mounted.push(m.copy());
                assert(mount_views(mounted@) =~= mount_views(before).push(m@));
                used = used + m.lut_count;
            }
            i = i + 1;
        }
        proof {
            assert(ms.subrange(0, self.mounts@.len() as int) =~= ms);
        }
        let mut storage: Vec<StorageInfo> = Vec::new();
        let mut k: usize = 0;
        while k < self.storage.len()
            invariant
                k <= self.storage@.len(),
                storage_views(storage@) == storage_views(self.storage@).subrange(0, k as int),
            decreases self.storage@.len() - k,
        {
            let ghost before = storage@;
            let c = self.storage[k].copy();
            storage.push(c);
            assert(storage_views(storage@) =~= storage_views(before).push(c@));
            assert(storage_views(storage@) =~= storage_views(self.storage@).subrange(0, k + 1));
            k = k + 1;
        }
        assert(storage_views(self.storage@).subrange(0, self.storage@.len() as int) =~= storage_views(self.storage@));
        ctx.mounted = mounted;
        ctx.storage = storage;
        ctx.total_luts = total;
        ctx.available_luts = total - used;
        ctx
    }

    fn find_mount(&self, slot: &str) -> (r: Option<usize>)
        ensures
            match r {
                Some(i) => i < self.mounts@.len() && mount_index(self.mounts_view(), slot@) == Some(i as int),
                None => mount_index(self.mounts_view(), slot@) == None::<int>,
            },
    {
        let ghost ms = self.mounts_view();
        let ghost p = |i: int| ms[i].slot == slot@;
        let want = chars_of(slot);
        let mut i: usize = 0;
        while i < self.mounts.len()
            invariant
                i <= self.mounts@.len(),
                ms == mount_views(self.mounts@),
                want@ == slot@,
                p == (|i: int| ms[i].slot == slot@),
                forall|j: int| 0 <= j < i ==> !#[trigger] p(j),
            decreases self.mounts@.len() - i,
        {
            let name = chars_of(self.mounts[i].slot.as_str());
            if chars_eq(name.as_slice(), want.as_slice()) {
                proof { lemma_first_index_is(ms.len(), p, i as int); }
                return Some(i);
            }
            i = i + 1;
        }
        proof { lemma_first_index_none(ms.len(), p); }
        None
    }

    /// Records `name` (taking `lut_count` LUTs) as mounted and active in
    /// `slot`; an unknown slot is refused and nothing changes.
    pub fn mount_bitstream(&mut self, slot: &str, name: &str, lut_count: u32) -> (r: Result<(), TetherError>)
        ensures
            final(self).storage_view() == old(self).storage_view(),
            final(self).total_luts() == old(self).total_luts(),
            match mount_index(old(self).mounts_view(), slot@) {
                Some(i) => r is Ok && final(self).mounts_view() == old(self).mounts_view().update(i, MountInfoV {
                    slot: old(self).mounts_view()[i].slot,
                    bitstream_name: Some(name@),
                    active: true,
                    lut_count: lut_count,
                }),
                None => r matches Err(TetherError::UnknownSlot(s)) && s@ == slot@
                    && final(self).mounts_view() == old(self).mounts_view(),
            },
    {
        match self.find_mount(slot) {
            Some(i) => {
                let ghost before = self.mounts@;
                let old_slot = self.mounts[i].slot.clone();
                self.mounts.set(i, MountInfo { slot: old_slot, bitstream_name: Some(owned(name)), active: true, lut_count });
                assert(mount_views(self.mounts@) =~= mount_views(before).update(i as int, MountInfoV {
                    slot: mount_views(before)[i as int].slot,
                    bitstream_name: Some(name@),
                    active: true,
                    lut_count: lut_count,
                }));
                Ok(())
            }
            None => Err(TetherError::UnknownSlot(owned(slot))),
        }
    }

    /// Empties `slot` and marks it inactive; an unknown slot is refused and
    /// nothing changes.
    pub fn unmount_bitstream(&mut self, slot: &str) -> (r: Result<(), TetherError>)
        ensures
            final(self).storage_view() == old(self).storage_view(),
            final(self).total_luts() == old(self).total_luts(),
            match mount_index(old(self).mounts_view(), slot@) {
                Some(i) => r is Ok && final(self).mounts_view() == old(self).mounts_view().update(i, MountInfoV {
                    bitstream_name: None,
                    active: false,
                    ..old(self).mounts_view()[i]
                }),
                None => r matches Err(TetherError::UnknownSlot(s)) && s@ == slot@
                    && final(self).mounts_view() == old(self).mounts_view(),
            },
    {
        match self.find_mount(slot) {
            Some(i) => {
                let ghost before = self.mounts@;
                let old_slot = self.mounts[i].slot.clone();
                let luts = self.mounts[i].lut_count;
                self.mounts.set(i, MountInfo { slot: old_slot, bitstream_name: None, active: false, lut_count: luts });
                assert(mount_views(self.mounts@) =~= mount_views(before).update(i as int, MountInfoV {
                    bitstream_name: None,
                    active: false,
                    ..mount_views(before)[i as int]
                }));
                Ok(())
            }
            None => Err(TetherError::UnknownSlot(owned(slot))),
        }
    }
}

impl TetherEngine {
    fn fabric_states(&self) -> (v: Vec<FabricState>)
        ensures
            v@.len() == self.fabric_view().len(),
            forall|i: int| 0 <= i < v@.len() ==> self.tile_answer(self.fabric_view()[i], #[trigger] v@[i]),
    {
        let mut v: Vec<FabricState> = Vec::new();
        let mut i: usize = 0;
        while i < self.fabric.len()
            invariant
                i <= self.fabric@.len(),
                v@.len() == i,
                forall|j: int| 0 <= j < i ==> self.tile_answer(self.fabric_view()[j], #[trigger] v@[j]),
            decreases self.fabric@.len() - i,
        {
            let tile = &self.fabric[i];
            let state = if tile.1.connected { owned("CONNECTED") } else { owned("DISCONNECTED") };
            let mounted = match self.find_mount(tile.0.as_str()) {
                Some(j) => copy_opt_string(&self.mounts[j].bitstream_name),
                None => None,
            };
            let f = FabricState { tile_id: tile.1.tile_id, state, mounted_bitstream: mounted };
            assert(self.fabric_view()[i as int] == (tile.0@, tile.1));
            v.push(f);
            i = i + 1;
        }
        v
    }

    /// Answers the tether `tether_name`; an unknown tether is refused.
    pub fn query(&self, tether_name: &str) -> (r: Result<TetherResponse, TetherError>)
        ensures
            r is Ok <==> is_tether(tether_name@),
            match r {
                Ok(resp) => resp.query@ == tether_name@ && resp.timestamp@ == "2026-04-24T12:00:00Z"@
                    && self.answers(tether_name@, resp.result),
                Err(e) => e matches TetherError::UnknownTether(s) && s@ == tether_name@,
            },
    {
        let name = chars_of(tether_name);
        let result = if eq_str(name.as_slice(), "fabric_state") {
            TetherResult::Fabric(self.fabric_states())
        } else if eq_str(name.as_slice(), "mount_table") {
            let mut v: Vec<MountInfo> = Vec::new();
            let mut i: usize = 0;
            while i < self.mounts.len()
                invariant
                    i <= self.mounts@.len(),
                    mount_views(v@) == mount_views(self.mounts@).subrange(0, i as int),
                decreases self.mounts@.len() - i,
            {
                let ghost before = v@;
                let c = self.mounts[i].copy();
                v.push(c);
                assert(mount_views(v@) =~= mount_views(before).push(c@));
                assert(mount_views(v@) =~= mount_views(self.mounts@).subrange(0, i + 1));
                i = i + 1;
            }
            assert(mount_views(self.mounts@).subrange(0, self.mounts@.len() as int) =~= mount_views(self.mounts@));
            TetherResult::Mounts(v)
        } else if eq_str(name.as_slice(), "storage_list") {
            let mut v: Vec<StorageInfo> = Vec::new();
            let mut i: usize = 0;
            while i < self.storage.len()
                invariant
                    i <= self.storage@.len(),
                    storage_views(v@) == storage_views(self.storage@).subrange(0, i as int),
                decreases self.storage@.len() - i,
            {
                let ghost before = v@;
                let c = self.storage[i].copy();
                v.push(c);
                assert(storage_views(v@) =~= storage_views(before).push(c@));
                assert(storage_views(v@) =~= storage_views(self.storage@).subrange(0, i + 1));
                i = i + 1;
            }
            assert(storage_views(self.storage@).subrange(0, self.storage@.len() as int) =~= storage_views(self.storage@));
            TetherResult::Storage(v)
        } else if eq_str(name.as_slice(), "fence_status") {
            let mut v: Vec<FenceInfo> = Vec::new();
            let mut i: usize = 0;
            while i < self.fences.len()
                invariant
                    i <= self.fences@.len(),
                    fence_views(v@) == fence_views(self.fences@).subrange(0, i as int),
                decreases self.fences@.len() - i,
            {
                let ghost before = v@;
                let c = self.fences[i].copy();
                v.push(c);
                assert(fence_views(v@) =~= fence_views(before).push(c@));
                assert(fence_views(v@) =~= fence_views(self.fences@).subrange(0, i + 1));
                i = i + 1;
            }
            assert(fence_views(self.fences@).subrange(0, self.fences@.len() as int) =~= fence_views(self.fences@));
            TetherResult::Fences(v)
        } else if eq_str(name.as_slice(), "kernel_version") {
            TetherResult::Kernel(KernelInfo { version: owned("0.1.0"), build_date: owned("2026-04-24") })
        } else {
            return Err(TetherError::UnknownTether(owned(tether_name)));
        };
        Ok(TetherResponse { query: owned(tether_name), timestamp: owned("2026-04-24T12:00:00Z"), result })
    }
}

impl Default for TetherEngine {
    fn default() -> (e: Self)
        ensures
            e.total_luts() == 256_000,
            e.mounts_view().len() == 2,
            e.storage_view().len() == 2,
    {
        Self::new()
    }
}

} // verus!
