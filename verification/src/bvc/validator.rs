//! Checks a program against the board description: every tile and slot it
//! names must be a partition of the board (`Tile_0`, the whole fabric, is
//! always there as a tile).

use vstd::prelude::*;
use crate::text::{owned, chars_of, chars_eq, eq_str};
use crate::bvc::types::{
    BvcProgram, BvcProgramV, ControlBlock, ControlBlockV, ControlStmt, ControlStmtV, EbvData, PartitionDef,
    entry_names, stmt_views, block_views, string_views, opt_chars,
};

verus! {

/// Why a program does not fit the board.
#[derive(Debug, Clone, PartialEq)]
pub enum ValidationError {
    NoPartitions,
    TileNotFound(String),
    SlotNotFound(String),
}

pub enum ValidationErrorV {
    NoPartitions,
    TileNotFound(Seq<char>),
    SlotNotFound(Seq<char>),
}

impl View for ValidationError {
    type V = ValidationErrorV;

    open spec fn view(&self) -> ValidationErrorV {
        match self {
            ValidationError::NoPartitions => ValidationErrorV::NoPartitions,
            ValidationError::TileNotFound(s) => ValidationErrorV::TileNotFound(s@),
            ValidationError::SlotNotFound(s) => ValidationErrorV::SlotNotFound(s@),
        }
    }
}

pub open spec fn validation_text(e: ValidationErrorV) -> Seq<char> {
    match e {
        ValidationErrorV::NoPartitions => "No partitions defined in .ebv"@,
        ValidationErrorV::TileNotFound(t) => "Tile '"@ + t + "' not found in .ebv partitions"@,
        ValidationErrorV::SlotNotFound(s) => "Slot '"@ + s + "' not found in .ebv partitions"@,
    }
}

impl ValidationError {
    pub fn message(&self) -> (s: String)
        ensures
            s@ == validation_text(self@),
    {
        match self {
            ValidationError::NoPartitions => owned("No partitions defined in .ebv"),
            ValidationError::TileNotFound(t) => {
                let mut s = owned("Tile '");
                s.append(t.as_str());
                s.append("' not found in .ebv partitions");
                s
            }
            ValidationError::SlotNotFound(t) => {
                let mut s = owned("Slot '");
                s.append(t.as_str());
                s.append("' not found in .ebv partitions");
                s
            }
        }
    }
}

/// The first of two checks that fails.
pub open spec fn or_else(a: Option<ValidationErrorV>, b: Option<ValidationErrorV>) -> Option<ValidationErrorV> {
    if a is Some { a } else { b }
}

/// A tile must be a partition or `Tile_0`.
pub open spec fn tile_check(parts: Option<Seq<Seq<char>>>, tile: Seq<char>) -> Option<ValidationErrorV> {
    match parts {
        None => Some(ValidationErrorV::NoPartitions),
        Some(names) => if !names.contains(tile) && tile != "Tile_0"@ {
            Some(ValidationErrorV::TileNotFound(tile))
        } else {
            None
        },
    }
}

/// A slot must be a partition.
pub open spec fn slot_check(parts: Option<Seq<Seq<char>>>, slot: Seq<char>) -> Option<ValidationErrorV> {
    match parts {
        None => Some(ValidationErrorV::NoPartitions),
        Some(names) => if !names.contains(slot) {
            Some(ValidationErrorV::SlotNotFound(slot))
        } else {
            None
        },
    }
}

pub open spec fn opt_tile_check(parts: Option<Seq<Seq<char>>>, tile: Option<Seq<char>>) -> Option<ValidationErrorV> {
    match tile {
        Some(t) => tile_check(parts, t),
        None => None,
    }
}

pub open spec fn opt_slot_check(parts: Option<Seq<Seq<char>>>, slot: Option<Seq<char>>) -> Option<ValidationErrorV> {
    match slot {
        Some(s) => slot_check(parts, s),
        None => None,
    }
}

/// The first tile of the list that is not on the board.
pub open spec fn tiles_check(parts: Option<Seq<Seq<char>>>, tiles: Seq<Seq<char>>) -> Option<ValidationErrorV>
    decreases tiles.len(),
{
    if tiles.len() == 0 {
        None
    } else {
        or_else(tile_check(parts, tiles[0]), tiles_check(parts, tiles.drop_first()))
    }
}

/// What is wrong with one statement, if anything.
pub open spec fn stmt_check(parts: Option<Seq<Seq<char>>>, s: ControlStmtV) -> Option<ValidationErrorV> {
    match s {
        ControlStmtV::Target(tiles) => tiles_check(parts, tiles),
        ControlStmtV::Partition { tile_ref, slot_id, .. } => or_else(tile_check(parts, tile_ref), opt_slot_check(parts, slot_id)),
        ControlStmtV::Route { from_tile, to_tile, .. } => or_else(opt_tile_check(parts, from_tile), opt_tile_check(parts, to_tile)),
        ControlStmtV::Mount { tile_ref, slot_id, .. } => or_else(tile_check(parts, tile_ref), opt_slot_check(parts, slot_id)),
        ControlStmtV::Unmount { .. } => None,
        ControlStmtV::Fence { slot_id, .. } => slot_check(parts, slot_id),
        ControlStmtV::Timeout { .. } => None,
    }
}

/// The first statement error, in order.
pub open spec fn stmts_check(parts: Option<Seq<Seq<char>>>, stmts: Seq<ControlStmtV>) -> Option<ValidationErrorV>
    decreases stmts.len(),
{
    if stmts.len() == 0 {
        None
    } else {
        or_else(stmt_check(parts, stmts[0]), stmts_check(parts, stmts.drop_first()))
    }
}

/// The first error over the control blocks, in order.
pub open spec fn blocks_check(parts: Option<Seq<Seq<char>>>, blocks: Seq<ControlBlockV>) -> Option<ValidationErrorV>
    decreases blocks.len(),
{
    if blocks.len() == 0 {
        None
    } else {
        or_else(stmts_check(parts, blocks[0].stmts), blocks_check(parts, blocks.drop_first()))
    }
}

/// The first error of a program against a board's partitions.
pub open spec fn program_check(parts: Option<Seq<Seq<char>>>, p: BvcProgramV) -> Option<ValidationErrorV> {
    blocks_check(parts, p.control_blocks)
}

/// Checks programs against one board description.
pub struct Validator<'a> {
    pub ebv: &'a EbvData,
}

impl<'a> Validator<'a> {
    pub fn new(ebv: &'a EbvData) -> (v: Self)
        ensures
            v.ebv == ebv,
    {
        Validator { ebv }
    }

    fn has_partition(&self, name: &[char]) -> (r: Option<bool>)
        ensures
            match self.ebv.partition_names() {
                None => r is None,
                Some(names) => r == Some(names.contains(name@)),
            },
    {
        match &self.ebv.ebv.partitions {
            None => None,
            Some(parts) => {
                let ghost names = entry_names(parts@);
                let mut i: usize = 0;
                while i < parts.len()
                    invariant
                        i <= parts@.len(),
                        names == entry_names(parts@),
                        self.ebv.partition_names() == Some(names),
                        forall|j: int| 0 <= j < i ==> names[j] != name@,
                    decreases parts@.len() - i,
                {
                    let key = chars_of(parts[i].0.as_str());
                    assert(names[i as int] == parts@[i as int].0@);
                    if chars_eq(key.as_slice(), name) {
                        assert(names[i as int] == name@);
                        assert(names.contains(name@));
                        return Some(true);
                    }
                    i = i + 1;
                }
                assert(!names.contains(name@)) by {
                    if names.contains(name@) {
                        let j = choose|j: int| 0 <= j < names.len() && names[j] == name@;
                        assert(names[j] != name@);
                    }
                }
                Some(false)
            }
        }
    }

    fn check_tile(&self, tile: &String) -> (r: Result<(), ValidationError>)
        ensures
            match tile_check(self.ebv.partition_names(), tile@) {
                None => r is Ok,
                Some(e) => r matches Err(err) && err@ == e,
            },
    {
        let t = chars_of(tile.as_str());
        match self.has_partition(t.as_slice()) {
            None => Err(ValidationError::NoPartitions),
            Some(found) => {
                if !found && !eq_str(t.as_slice(), "Tile_0") {
                    Err(ValidationError::TileNotFound(tile.clone()))
                } else {
                    Ok(())
                }
            }
        }
    }

    fn check_slot(&self, slot: &String) -> (r: Result<(), ValidationError>)
        ensures
            match slot_check(self.ebv.partition_names(), slot@) {
                None => r is Ok,
                Some(e) => r matches Err(err) && err@ == e,
            },
    {
        let t = chars_of(slot.as_str());
        match self.has_partition(t.as_slice()) {
            None => Err(ValidationError::NoPartitions),
            Some(found) => {
                if !found {
                    Err(ValidationError::SlotNotFound(slot.clone()))
                } else {
                    Ok(())
                }
            }
        }
    }

    fn check_opt_slot(&self, slot: &Option<String>) -> (r: Result<(), ValidationError>)
        ensures
            match opt_slot_check(self.ebv.partition_names(), opt_chars(*slot)) {
                None => r is Ok,
                Some(e) => r matches Err(err) && err@ == e,
            },
    {
        match slot {
            None => Ok(()),
            Some(s) => self.check_slot(s),
        }
    }

    fn check_opt_tile(&self, tile: &Option<String>) -> (r: Result<(), ValidationError>)
        ensures
            match opt_tile_check(self.ebv.partition_names(), opt_chars(*tile)) {
                None => r is Ok,
                Some(e) => r matches Err(err) && err@ == e,
            },
    {
        match tile {
            None => Ok(()),
            Some(t) => self.check_tile(t),
        }
    }

    fn check_stmt(&self, stmt: &ControlStmt) -> (r: Result<(), ValidationError>)
        ensures
            match stmt_check(self.ebv.partition_names(), stmt@) {
                None => r is Ok,
                Some(e) => r matches Err(err) && err@ == e,
            },
    {
        let ghost parts = self.ebv.partition_names();
        match stmt {
            ControlStmt::Target(tiles) => {
                let ghost tv = string_views(tiles@);
                let mut i: usize = 0;
                assert(tv.subrange(0, tv.len() as int) =~= tv);
                while i < tiles.len()
                    invariant
                        i <= tiles@.len(),
                        tv == string_views(tiles@),
                        stmt@ == ControlStmtV::Target(tv),
                        parts == self.ebv.partition_names(),
                        tiles_check(parts, tv) == tiles_check(parts, tv.subrange(i as int, tv.len() as int)),
                    decreases tiles@.len() - i,
                {
                    proof {
                        let t = tv.subrange(i as int, tv.len() as int);
                        assert(t.drop_first() =~= tv.subrange(i + 1, tv.len() as int));
                        assert(t[0] == tiles@[i as int]@);
                    }
                    match self.check_tile(&tiles[i]) {
                        Err(e) => {
                            proof {
                                let t = tv.subrange(i as int, tv.len() as int);
                                assert(tile_check(parts, t[0]) == Some(e@));
                                assert(tiles_check(parts, t) == Some(e@));
                            }
                            return Err(e);
                        }
                        Ok(()) => {}
                    }
                    i = i + 1;
                }
                assert(tv.subrange(i as int, tv.len() as int) =~= Seq::<Seq<char>>::empty());
                Ok(())
            }
            ControlStmt::Partition(p) => {
                self.check_tile(&p.tile_ref)?;
                self.check_opt_slot(&p.slot_id)
            }
            ControlStmt::Route(r) => {
                self.check_opt_tile(&r.from_tile)?;
                self.check_opt_tile(&r.to_tile)
            }
            ControlStmt::Mount(m) => {
                self.check_tile(&m.tile_ref)?;
                self.check_opt_slot(&m.slot_id)
            }
            ControlStmt::Unmount(_) => Ok(()),
            ControlStmt::Fence(f) => self.check_slot(&f.slot_id),
            ControlStmt::Timeout(_) => Ok(()),
        }
    }

    fn check_block(&self, block: &ControlBlock) -> (r: Result<(), ValidationError>)
        ensures
            match stmts_check(self.ebv.partition_names(), block@.stmts) {
                None => r is Ok,
                Some(e) => r matches Err(err) && err@ == e,
            },
    {
        let ghost parts = self.ebv.partition_names();
        let ghost sv = stmt_views(block.stmts@);
        let mut i: usize = 0;
        assert(sv.subrange(0, sv.len() as int) =~= sv);
        while i < block.stmts.len()
            invariant
                i <= block.stmts@.len(),
                sv == stmt_views(block.stmts@),
                sv == block@.stmts,
                parts == self.ebv.partition_names(),
                stmts_check(parts, sv) == stmts_check(parts, sv.subrange(i as int, sv.len() as int)),
            decreases block.stmts@.len() - i,
        {
            proof {
                let t = sv.subrange(i as int, sv.len() as int);
                assert(t.drop_first() =~= sv.subrange(i + 1, sv.len() as int));
                assert(t[0] == block.stmts@[i as int]@);
            }
            match self.check_stmt(&block.stmts[i]) {
                Err(e) => return Err(e),
                Ok(()) => {}
            }
            i = i + 1;
        }
        assert(sv.subrange(i as int, sv.len() as int) =~= Seq::<ControlStmtV>::empty());
        Ok(())
    }

    /// Checks every statement of every control block, in order, and reports
    /// the first tile or slot the board does not have.
    pub fn validate(&self, program: &BvcProgram) -> (r: Result<(), ValidationError>)
        ensures
            match program_check(self.ebv.partition_names(), program@) {
                None => r is Ok,
                Some(e) => r matches Err(err) && err@ == e,
            },
    {
        let ghost parts = self.ebv.partition_names();
        let ghost bv = block_views(program.control_blocks@);
        let mut i: usize = 0;
        assert(bv.subrange(0, bv.len() as int) =~= bv);
        while i < program.control_blocks.len()
            invariant
                i <= program.control_blocks@.len(),
                bv == block_views(program.control_blocks@),
                bv == program@.control_blocks,
                parts == self.ebv.partition_names(),
                blocks_check(parts, bv) == blocks_check(parts, bv.subrange(i as int, bv.len() as int)),
            decreases program.control_blocks@.len() - i,
        {
            proof {
                let t = bv.subrange(i as int, bv.len() as int);
                assert(t.drop_first() =~= bv.subrange(i + 1, bv.len() as int));
                assert(t[0] == program.control_blocks@[i as int]@);
            }
            match self.check_block(&program.control_blocks[i]) {
                Err(e) => return Err(e),
                Ok(()) => {}
            }
            i = i + 1;
        }
        assert(bv.subrange(i as int, bv.len() as int) =~= Seq::<ControlBlockV>::empty());
        Ok(())
    }
}

} // verus!
