//! The Writ of Execution: the metadata a program compiles to, and the
//! binary frame that carries its JSON text (`WRIT`, format version 1, the
//! text's length, the text, sixteen zero bytes).

use vstd::prelude::*;
use crate::text::{owned, chars_of, chars_eq, push_decimal, decimal, digit_char};
use crate::seqs::{first_index, lemma_first_index_is, lemma_first_index_none};
use crate::bvc::types::{
    BvcProgram, ControlBlock, ControlStmt, ControlStmtV, EbvData, PartitionDef, stmt_views, opt_chars,
};

verus! {

/// Builds Writ metadata; slots that a partition statement does not name are
/// numbered `RP_0`, `RP_1`, ... across the builder's life.
pub struct WritBuilder {
    pub partition_counter: u32,
}

#[derive(Debug, Clone)]
pub struct WritMetadata {
    pub name: String,
    pub version: String,
    pub target: Option<TargetSpec>,
    pub partitions: Vec<PartitionSpec>,
    pub security: SecuritySpec,
    pub tethers: Vec<TetherDef>,
    pub interconnects: Vec<InterconnectDef>,
}

#[derive(Debug, Clone)]
pub struct TargetSpec {
    pub board: String,
    pub soc: String,
}

/// A partition of the Writ. Its BRAM size is kept in tenths of a megabyte.
#[derive(Debug, Clone)]
pub struct PartitionSpec {
    pub slot: String,
    pub lut_count: u32,
    pub bram_tenths_mb: u32,
    pub relocation: Option<RelocationSpec>,
}

#[derive(Debug, Clone)]
pub struct RelocationSpec {
    pub base_address: String,
}

#[derive(Debug, Clone)]
pub struct SecuritySpec {
    pub verified: bool,
    pub signature: String,
    pub leakage_contract: Option<String>,
}

#[derive(Debug, Clone)]
pub struct TetherDef {
    pub name: String,
    pub tether_type: String,
    pub address: Option<String>,
    pub size: Option<u64>,
}

#[derive(Debug, Clone)]
pub struct InterconnectDef {
    pub name: String,
    pub interconnect_type: String,
    pub master: String,
    pub slave: String,
    pub width: u32,
}

/// A partition as a mathematical value.
pub struct PartitionSpecV {
    pub slot: Seq<char>,
    pub lut_count: u32,
    pub bram_tenths_mb: u32,
    pub relocated: bool,
}

impl View for PartitionSpec {
    type V = PartitionSpecV;

    open spec fn view(&self) -> PartitionSpecV {
        PartitionSpecV {
            slot: self.slot@,
            lut_count: self.lut_count,
            bram_tenths_mb: self.bram_tenths_mb,
            relocated: self.relocation is Some,
        }
    }
}

pub struct InterconnectDefV {
    pub name: Seq<char>,
    pub interconnect_type: Seq<char>,
    pub master: Seq<char>,
    pub slave: Seq<char>,
    pub width: u32,
}

impl View for InterconnectDef {
    type V = InterconnectDefV;

    open spec fn view(&self) -> InterconnectDefV {
        InterconnectDefV {
            name: self.name@,
            interconnect_type: self.interconnect_type@,
            master: self.master@,
            slave: self.slave@,
            width: self.width,
        }
    }
}

pub open spec fn partition_views(v: Seq<PartitionSpec>) -> Seq<PartitionSpecV> {
    v.map_values(|p: PartitionSpec| p@)
}

pub open spec fn interconnect_views(v: Seq<InterconnectDef>) -> Seq<InterconnectDefV> {
    v.map_values(|p: InterconnectDef| p@)
}

/// Why a Writ could not be built.
#[derive(Debug, Clone, PartialEq)]
pub enum WritError {
    NoControlBlocks,
    NoPartitions,
    PartitionNotFound(String),
}

pub enum WritErrorV {
    NoControlBlocks,
    NoPartitions,
    PartitionNotFound(Seq<char>),
}

impl View for WritError {
    type V = WritErrorV;

    open spec fn view(&self) -> WritErrorV {
        match self {
            WritError::NoControlBlocks => WritErrorV::NoControlBlocks,
            WritError::NoPartitions => WritErrorV::NoPartitions,
            WritError::PartitionNotFound(s) => WritErrorV::PartitionNotFound(s@),
        }
    }
}

pub open spec fn writ_error_text(e: WritErrorV) -> Seq<char> {
    match e {
        WritErrorV::NoControlBlocks => "No control blocks in .bvc program"@,
        WritErrorV::NoPartitions => "No partitions in .ebv"@,
        WritErrorV::PartitionNotFound(s) => "Partition '"@ + s + "' not found in .ebv"@,
    }
}

impl WritError {
    pub fn message(&self) -> (s: String)
        ensures
            s@ == writ_error_text(self@),
    {
        match self {
            WritError::NoControlBlocks => owned("No control blocks in .bvc program"),
            WritError::NoPartitions => owned("No partitions in .ebv"),
            WritError::PartitionNotFound(p) => {
                let mut s = owned("Partition '");
                s.append(p.as_str());
                s.append("' not found in .ebv");
                s
            }
        }
    }
}

// ---------------------------------------------------------------------------
// Building the metadata

/// Where `slot` is in the partition table.
pub open spec fn table_index(table: Seq<(Seq<char>, Option<u32>)>, slot: Seq<char>) -> Option<int> {
    first_index(table.len(), |i: int| table[i].0 == slot)
}

/// The LUT count of a slot: the table's `cells`, 40 000 where it gives none.
pub open spec fn slot_capacity(table: Option<Seq<(Seq<char>, Option<u32>)>>, slot: Seq<char>) -> Result<u32, WritErrorV> {
    match table {
        None => Err(WritErrorV::NoPartitions),
        Some(t) => match table_index(t, slot) {
            None => Err(WritErrorV::PartitionNotFound(slot)),
            Some(i) => Ok(match t[i].1 {
                Some(n) => n,
                None => 40000u32,
            }),
        },
    }
}

/// The name an unnamed partition gets.
pub open spec fn auto_slot(n: nat) -> Seq<char> {
    "RP_"@ + decimal(n)
}

/// What the builder has gathered so far.
pub struct BuildState {
    pub partitions: Seq<PartitionSpecV>,
    pub interconnects: Seq<InterconnectDefV>,
    pub counter: nat,
}

/// The optional string, or the empty string.
pub open spec fn or_empty(o: Option<Seq<char>>) -> Seq<char> {
    match o {
        Some(s) => s,
        None => Seq::empty(),
    }
}

/// One statement's contribution: a partition (taking the next number when
/// it names no slot) or an interconnect; other statements add nothing. An
/// error carries the counter as it then stands.
pub open spec fn build_step(table: Option<Seq<(Seq<char>, Option<u32>)>>, st: BuildState, s: ControlStmtV) -> Result<BuildState, (WritErrorV, nat)> {
    match s {
        ControlStmtV::Partition { slot_id, .. } => {
            let slot = match slot_id {
                Some(x) => x,
                None => auto_slot(st.counter),
            };
            match slot_capacity(table, slot) {
                Err(e) => Err((e, st.counter + 1)),
                Ok(luts) => Ok(BuildState {
                    partitions: st.partitions.push(PartitionSpecV { slot, lut_count: luts, bram_tenths_mb: 24, relocated: false }),
                    counter: st.counter + 1,
                    ..st
                }),
            }
        },
        ControlStmtV::Route { route_name, from_tile, to_tile, .. } => Ok(BuildState {
            interconnects: st.interconnects.push(InterconnectDefV {
                name: route_name,
                interconnect_type: "AXI4Stream"@,
                master: or_empty(from_tile),
                slave: or_empty(to_tile),
                width: 32,
            }),
            ..st
        }),
        _ => Ok(st),
    }
}

/// The statements' contributions in order, stopping at the first error.
pub open spec fn build_from(table: Option<Seq<(Seq<char>, Option<u32>)>>, st: BuildState, stmts: Seq<ControlStmtV>) -> Result<BuildState, (WritErrorV, nat)>
    decreases stmts.len(),
{
    if stmts.len() == 0 {
        Ok(st)
    } else {
        match build_step(table, st, stmts[0]) {
            Err(e) => Err(e),
            Ok(next) => build_from(table, next, stmts.drop_first()),
        }
    }
}

/// A builder that has numbered no partition yet gives the first partition
/// statement without `as` the slot `RP_0` (where that slot's capacity is
/// known), and counts it.
pub proof fn law_first_auto_slot(table: Option<Seq<(Seq<char>, Option<u32>)>>, st: BuildState, s: ControlStmtV)
    requires
        st.counter == 0,
        s matches ControlStmtV::Partition { slot_id: None, .. },
    ensures
        build_step(table, st, s) matches Ok(n) ==> n.partitions.len() == st.partitions.len() + 1
            && n.partitions.last().slot == "RP_0"@ && n.counter == 1,
{
    reveal_strlit("RP_");
    reveal_strlit("RP_0");
    assert(decimal(0) == seq![digit_char(0)]);
    assert(auto_slot(0) =~= "RP_0"@);
}

/// The number of partition statements.
pub open spec fn partition_count(stmts: Seq<ControlStmtV>) -> nat
    decreases stmts.len(),
{
    if stmts.len() == 0 {
        0
    } else {
        partition_count(stmts.drop_first()) + if stmts[0] is Partition { 1nat } else { 0nat }
    }
}

proof fn lemma_build_counter(table: Option<Seq<(Seq<char>, Option<u32>)>>, st: BuildState, stmts: Seq<ControlStmtV>)
    ensures
        match build_from(table, st, stmts) {
            Ok(f) => f.counter <= st.counter + partition_count(stmts),
            Err((_, c)) => c <= st.counter + partition_count(stmts),
        },
    decreases stmts.len(),
{
    if stmts.len() > 0 {
        if let Ok(next) = build_step(table, st, stmts[0]) {
            lemma_build_counter(table, next, stmts.drop_first());
        }
    }
}

proof fn lemma_partition_count_split(s: Seq<ControlStmtV>, i: int)
    requires
        0 <= i < s.len(),
    ensures
        partition_count(s.subrange(i, s.len() as int)) == partition_count(s.subrange(i + 1, s.len() as int))
            + if s[i] is Partition { 1nat } else { 0nat },
{
    assert(s.subrange(i, s.len() as int).drop_first() =~= s.subrange(i + 1, s.len() as int));
}

impl WritBuilder {
    pub fn new() -> (b: Self)
        ensures
            b.partition_counter == 0,
    {
        WritBuilder { partition_counter: 0 }
    }

    fn lookup_capacity(ebv: &EbvData, slot: &String) -> (r: Result<u32, WritError>)
        ensures
            match slot_capacity(ebv.partition_table(), slot@) {
                Ok(n) => r == Ok::<u32, WritError>(n),
                Err(e) => r matches Err(err) && err@ == e,
            },
    {
        match &ebv.ebv.partitions {
            None => Err(WritError::NoPartitions),
            Some(parts) => {
                let ghost t = parts@.map_values(|e: (String, PartitionDef)| (e.0@, e.1.lut_count));
                let ghost p = |i: int| t[i].0 == slot@;
                let want = chars_of(slot.as_str());
                let mut i: usize = 0;
                while i < parts.len()
                    invariant
                        i <= parts@.len(),
                        t == parts@.map_values(|e: (String, PartitionDef)| (e.0@, e.1.lut_count)),
                        ebv.partition_table() == Some(t),
                        p == (|i: int| t[i].0 == slot@),
                        want@ == slot@,
                        forall|j: int| 0 <= j < i ==> !#[trigger] p(j),
                    decreases parts@.len() - i,
                {
                    let key = chars_of(parts[i].0.as_str());
                    assert(t[i as int] == (parts@[i as int].0@, parts@[i as int].1.lut_count));
                    if chars_eq(key.as_slice(), want.as_slice()) {
                        proof { lemma_first_index_is(t.len(), p, i as int); }
                        return Ok(match parts[i].1.lut_count {
                            Some(n) => n,
                            None => 40000,
                        });
                    }
                    i = i + 1;
                }
                proof { lemma_first_index_none(t.len(), p); }
                Err(WritError::PartitionNotFound(slot.clone()))
            }
        }
    }

    /// Builds the metadata of the first control block: its partitions with
    /// their capacities from the board description and its routes as AXI4
    /// stream interconnects, for the board and SoC the description names
    /// (`Unknown` where it names none). A program without control blocks is
    /// refused, and so is a partition whose slot the board lacks.
    pub fn build_from_program(&mut self, program: &BvcProgram, ebv: &EbvData) -> (r: Result<WritMetadata, WritError>)
        requires
            program.control_blocks@.len() > 0 ==> old(self).partition_counter as int
                + partition_count(program.control_blocks@[0]@.stmts) <= u32::MAX,
        ensures
            program.control_blocks@.len() == 0 ==> (r matches Err(WritError::NoControlBlocks))
                && final(self).partition_counter == old(self).partition_counter,
            program.control_blocks@.len() > 0 ==> match build_from(
                ebv.partition_table(),
                BuildState { partitions: seq![], interconnects: seq![], counter: old(self).partition_counter as nat },
                program.control_blocks@[0]@.stmts,
            ) {
                Err((e, c)) => r matches Err(err) && err@ == e && final(self).partition_counter == c,
                Ok(st) => (r matches Ok(m) && metadata_of(m, program.control_blocks@[0].name@, *ebv, st))
                    && final(self).partition_counter == st.counter,
            },
    {
        if program.control_blocks.len() == 0 {
            return Err(WritError::NoControlBlocks);
        }
        let first = &program.control_blocks[0];
        let ghost table = ebv.partition_table();
        let ghost sv = stmt_views(first.stmts@);
        let ghost c0 = self.partition_counter as nat;
        let mut partitions: Vec<PartitionSpec> = Vec::new();
        let mut interconnects: Vec<InterconnectDef> = Vec::new();
        let mut i: usize = 0;
        assert(sv.subrange(0, sv.len() as int) =~= sv);
        assert(partition_views(partitions@) =~= Seq::<PartitionSpecV>::empty());
        assert(interconnect_views(interconnects@) =~= Seq::<InterconnectDefV>::empty());
        while i < first.stmts.len()
            invariant
                i <= first.stmts@.len(),
                program.control_blocks@.len() > 0,
                *first == program.control_blocks@[0],
                c0 == old(self).partition_counter as nat,
                sv == stmt_views(first.stmts@),
                sv == first@.stmts,
                table == ebv.partition_table(),
                self.partition_counter as int + partition_count(sv.subrange(i as int, sv.len() as int)) <= u32::MAX,
                build_from(table, BuildState { partitions: seq![], interconnects: seq![], counter: c0 }, sv)
                    == build_from(table, BuildState {
                        partitions: partition_views(partitions@),
                        interconnects: interconnect_views(interconnects@),
                        counter: self.partition_counter as nat,
                    }, sv.subrange(i as int, sv.len() as int)),
            decreases first.stmts@.len() - i,
        {
            let ghost st = BuildState {
                partitions: partition_views(partitions@),
                interconnects: interconnect_views(interconnects@),
                counter: self.partition_counter as nat,
            };
            proof {
                let t = sv.subrange(i as int, sv.len() as int);
                assert(t.drop_first() =~= sv.subrange(i + 1, sv.len() as int));
                assert(t[0] == first.stmts@[i as int]@);
                lemma_partition_count_split(sv, i as int);
            }
            match &first.stmts[i] {
                ControlStmt::Partition(p) => {
                    let slot = match &p.slot_id {
                        Some(x) => x.clone(),
                        None => {
                            let mut s = owned("RP_");
                            push_decimal(&mut s, self.partition_counter as u64);
                            s
                        }
                    };
                    self.partition_counter = self.partition_counter + 1;
                    let luts = match Self::lookup_capacity(ebv, &slot) {
                        Ok(n) => n,
                        Err(e) => return Err(e),
                    };
                    let ghost before = partitions@;
                    let spec = PartitionSpec { slot, lut_count: luts, bram_tenths_mb: 24, relocation: None };
                    let ghost pv = spec@;
                    partitions.push(spec);
                    assert(partition_views(partitions@) =~= partition_views(before).push(pv));
                }
                ControlStmt::Route(r) => {
                    let master = match &r.from_tile {
                        Some(x) => x.clone(),
                        None => String::new(),
                    };
                    let slave = match &r.to_tile {
                        Some(x) => x.clone(),
                        None => String::new(),
                    };
                    let ghost before = interconnects@;
                    let ic = InterconnectDef {
                        name: r.route_name.clone(),
                        interconnect_type: owned("AXI4Stream"),
                        master,
                        slave,
                        width: 32,
                    };
                    let ghost iv = ic@;
                    interconnects.push(ic);
                    assert(interconnect_views(interconnects@) =~= interconnect_views(before).push(iv));
                }
                _ => {}
            }
            i = i + 1;
        }
        assert(sv.subrange(i as int, sv.len() as int) =~= Seq::<ControlStmtV>::empty());
        let board = match &ebv.ebv.board {
            Some(b) => b.clone(),
            None => owned("Unknown"),
        };
        let soc = match &ebv.ebv.soc {
            Some(b) => b.clone(),
            None => owned("Unknown"),
        };
        Ok(WritMetadata {
            name: first.name.clone(),
            version: owned("0.1.0"),
            target: Some(TargetSpec { board, soc }),
            partitions,
            security: SecuritySpec { verified: false, signature: String::new(), leakage_contract: None },
            tethers: Vec::new(),
            interconnects,
        })
    }

    /// Frames the JSON text of a Writ's metadata.
    pub fn to_writ_bytes(&self, json: &[u8]) -> (out: Vec<u8>)
        ensures
            out@ == writ_frame(json@),
    {
        let mut out: Vec<u8> = Vec::new();
        out.push(0x57u8);
        out.push(0x52u8);
        out.push(0x49u8);
        out.push(0x54u8);
        out.push(1u8);
        out.push(0u8);
        let n = json.len();
        let len: u32 = n as u32;
        assert(len == (n as int % 0x1_0000_0000) as u32) by (bit_vector)
            requires
                len == n as u32;
        out.push((len % 256) as u8);
        out.push(((len / 256) % 256) as u8);
        out.push(((len / 65536) % 256) as u8);
        out.push(((len / 16777216) % 256) as u8);
        let ghost head = out@;
        let mut i: usize = 0;
        while i < json.len()
            invariant
                i <= json@.len(),
                out@ == head + json@.subrange(0, i as int),
            decreases json@.len() - i,
        {
            out.push(json[i]);
            assert(json@.subrange(0, i + 1) =~= json@.subrange(0, i as int).push(json@[i as int]));
            i = i + 1;
        }
        assert(json@.subrange(0, json@.len() as int) =~= json@);
        let mut k: usize = 0;
        let ghost body = out@;
        while k < 16
            invariant
                k <= 16,
                out@ == body + Seq::new(k as nat, |j: int| 0u8),
            decreases 16 - k,
        {
            out.push(0u8);
            assert(Seq::new((k + 1) as nat, |j: int| 0u8) =~= Seq::new(k as nat, |j: int| 0u8).push(0u8));
            k = k + 1;
        }
        assert(out@ =~= writ_frame(json@));
        out
    }
}

impl Default for WritBuilder {
    fn default() -> (b: Self)
        ensures
            b.partition_counter == 0,
    {
        Self::new()
    }
}

/// The metadata of a control block named `name` whose statements gathered
/// `st`, on the board `ebv`.
pub open spec fn metadata_of(m: WritMetadata, name: Seq<char>, ebv: EbvData, st: BuildState) -> bool {
    &&& m.name@ == name
    &&& m.version@ == "0.1.0"@
    &&& m.target matches Some(t) && t.board@ == or_unknown(opt_chars(ebv.ebv.board))
        && t.soc@ == or_unknown(opt_chars(ebv.ebv.soc))
    &&& partition_views(m.partitions@) == st.partitions
    &&& interconnect_views(m.interconnects@) == st.interconnects
    &&& !m.security.verified
    &&& m.security.signature@.len() == 0
    &&& m.security.leakage_contract is None
    &&& m.tethers@.len() == 0
}

/// The name, or `Unknown`.
pub open spec fn or_unknown(o: Option<Seq<char>>) -> Seq<char> {
    match o {
        Some(s) => s,
        None => "Unknown"@,
    }
}

/// The four bytes of a 32-bit number, least significant first.
pub open spec fn u32_le(n: u32) -> Seq<u8> {
    seq![(n % 256) as u8, ((n / 256) % 256) as u8, ((n / 65536) % 256) as u8, ((n / 16777216) % 256) as u8]
}

/// A Writ file: `WRIT`, the format version 1 as a little-endian 16-bit
/// number, the length of the JSON text as a little-endian 32-bit number
/// (taken modulo 2^32), the text, and sixteen zero bytes.
pub open spec fn writ_frame(json: Seq<u8>) -> Seq<u8> {
    seq![0x57u8, 0x52u8, 0x49u8, 0x54u8] + seq![1u8, 0u8] + u32_le((json.len() % 0x1_0000_0000) as u32) + json
        + Seq::new(16, |j: int| 0u8)
}

} // verus!
