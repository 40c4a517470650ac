//! The Moore kernel's own state: its fence table and scheduler tick count,
//! plus the plain records it reports to the shell.

use vstd::prelude::*;
use crate::seqs::{first_index, lemma_first_index, lemma_first_index_is, lemma_first_index_none, lemma_first_index_ext};

verus! {

/// A mounted bitstream.
pub struct MountInfo {
    pub slot: u32,
    pub bitstream_name: Option<u32>,
    pub active: bool,
    pub lut_count: u32,
}

/// A bitstream held in storage.
pub struct StorageInfo {
    pub filename_ptr: u32,
    pub size: u64,
    pub verified: bool,
}

/// A fence as the kernel records it.
#[derive(Clone, Copy)]
pub struct FenceInfo {
    pub fence_id: u32,
    pub active: bool,
    pub mode: u8,
}

/// Kernel version record.
pub struct KernelInfo {
    pub version: u32,
    pub build_date: u32,
}

/// Summary of the running kernel.
pub struct KernelState {
    pub uptime: u64,
    pub mounted_count: u32,
    pub fence_active: bool,
    pub tile_count: u32,
    pub mount_count: u32,
    pub storage_count: u32,
    pub fence_count: u32,
}

/// Number of fence records the kernel keeps.
pub const KERNEL_FENCE_SLOTS: usize = 4;

/// Error code returned when the fence table is full.
pub const KERNEL_FENCE_FULL: u8 = 0x34;

/// Index of the first record for `slot`.
pub open spec fn fence_index(fences: Seq<FenceInfo>, slot: u8) -> Option<int> {
    first_index(fences.len(), |i: int| fences[i].fence_id == slot as u32)
}

/// What `get_status` reports for `slot`.
pub open spec fn fence_status(fences: Seq<FenceInfo>, slot: u8) -> Option<(bool, u8)> {
    match fence_index(fences, slot) {
        Some(i) => Some((fences[i].active, fences[i].mode)),
        None => None,
    }
}

/// The kernel's fence table: records are appended in activation order, up to
/// `KERNEL_FENCE_SLOTS` of them.
pub struct FenceManager {
    fences: Vec<FenceInfo>,
    count: u8,
}

impl View for FenceManager {
    type V = Seq<FenceInfo>;

    closed spec fn view(&self) -> Seq<FenceInfo> {
        self.fences@
    }
}

impl FenceManager {
    /// At most `KERNEL_FENCE_SLOTS` records, and the count matches.
    pub closed spec fn wf(self) -> bool {
        &&& self.fences@.len() <= KERNEL_FENCE_SLOTS
        &&& self.count as int == self.fences@.len()
    }

    /// An empty fence table.
    pub fn new() -> (m: Self)
        ensures
            m.wf(),
            m@ == Seq::<FenceInfo>::empty(),
    {
        FenceManager { fences: Vec::new(), count: 0 }
    }

    /// Appends an active record for `slot`; returns 0, or `0x34` (and changes
    /// nothing) when the table is full.
    pub fn activate(&mut self, slot: u8, mode: u8) -> (r: u8)
        requires
            old(self).wf(),
        ensures
            final(self).wf(),
            old(self)@.len() >= KERNEL_FENCE_SLOTS ==> r == KERNEL_FENCE_FULL && final(self)@ == old(self)@,
            old(self)@.len() < KERNEL_FENCE_SLOTS ==> r == 0 && final(self)@ == old(self)@.push(
                FenceInfo { fence_id: slot as u32, active: true, mode: mode },
            ),
    {
        if self.count as usize >= KERNEL_FENCE_SLOTS {
            return KERNEL_FENCE_FULL;
        }
        self.fences.push(FenceInfo { fence_id: slot as u32, active: true, mode });
        self.count = self.count + 1;
        0
    }

    fn find(&self, slot: u8) -> (r: Option<usize>)
        ensures
            match r {
                Some(i) => i < self@.len() && fence_index(self@, slot) == Some(i as int),
                None => fence_index(self@, slot) == None::<int>,
            },
    {
        let ghost p = |i: int| self.fences@[i].fence_id == slot as u32;
        let mut i: usize = 0;
        while i < self.fences.len()
            invariant
                i <= self.fences@.len(),
                p == (|i: int| self.fences@[i].fence_id == slot as u32),
                forall|j: int| 0 <= j < i ==> #[trigger] self.fences@[j].fence_id != slot as u32,
            decreases self.fences@.len() - i,
        {
            if self.fences[i].fence_id == slot as u32 {
                proof { lemma_first_index_is(self.fences@.len(), p, i as int); }
                return Some(i);
            }
            i = i + 1;
        }
        proof { lemma_first_index_none(self.fences@.len(), p); }
        None
    }

    /// Marks the first record for `slot` inactive, if there is one.
    pub fn deactivate(&mut self, slot: u8)
        requires
            old(self).wf(),
        ensures
            final(self).wf(),
            final(self)@ == (match fence_index(old(self)@, slot) {
                Some(i) => old(self)@.update(i, FenceInfo { active: false, ..old(self)@[i] }),
                None => old(self)@,
            }),
    {
        match self.find(slot) {
            Some(i) => {
                let mut f = self.fences[i];
                f.active = false;
                self.fences.set(i, f);
            }
            None => {}
        }
    }

    /// Marks every record inactive.
    pub fn deactivate_all(&mut self)
        requires
            old(self).wf(),
        ensures
            final(self).wf(),
            final(self)@.len() == old(self)@.len(),
            forall|i: int| 0 <= i < old(self)@.len() ==> #[trigger] final(self)@[i] == (FenceInfo { active: false, ..old(self)@[i] }),
    {
        let ghost orig = self.fences@;
        let mut i: usize = 0;
        while i < self.fences.len()
            invariant
                i <= self.fences@.len(),
                self.fences@.len() == orig.len(),
                self.count as int == orig.len(),
                orig.len() <= KERNEL_FENCE_SLOTS,
                forall|j: int| 0 <= j < i ==> #[trigger] self.fences@[j] == (FenceInfo { active: false, ..orig[j] }),
                forall|j: int| i <= j < orig.len() ==> #[trigger] self.fences@[j] == orig[j],
            decreases self.fences@.len() - i,
        {
            let mut f = self.fences[i];
            f.active = false;
            self.fences.set(i, f);
            i = i + 1;
        }
    }

    /// `(active, mode)` of the first record for `slot`.
    pub fn get_status(&self, slot: u8) -> (r: Option<(bool, u8)>)
        ensures
            r == fence_status(self@, slot),
    {
        match self.find(slot) {
            Some(i) => Some((self.fences[i].active, self.fences[i].mode)),
            None => None,
        }
    }
}

/// After `deactivate_all`, every slot that has a record reports inactive with
/// its mode kept.
pub proof fn law_deactivate_all_then_status(before: Seq<FenceInfo>, after: Seq<FenceInfo>, slot: u8)
    requires
        after.len() == before.len(),
        forall|i: int| 0 <= i < before.len() ==> #[trigger] after[i] == (FenceInfo { active: false, ..before[i] }),
    ensures
        fence_status(after, slot) == (match fence_status(before, slot) {
            Some((_, mode)) => Some((false, mode)),
            None => None,
        }),
{
    let p = |i: int| before[i].fence_id == slot as u32;
    let q = |i: int| after[i].fence_id == slot as u32;
    lemma_first_index(before.len(), p);
    lemma_first_index_ext(before.len(), p, q);
}

/// After a successful `activate`, a slot with no earlier record reports
/// itself active with the requested mode.
pub proof fn law_activate_then_status(before: Seq<FenceInfo>, slot: u8, mode: u8)
    requires
        fence_index(before, slot) is None,
    ensures
        fence_status(before.push(FenceInfo { fence_id: slot as u32, active: true, mode: mode }), slot)
            == Some((true, mode)),
{
    let after = before.push(FenceInfo { fence_id: slot as u32, active: true, mode: mode });
    let p = |i: int| before[i].fence_id == slot as u32;
    let q = |i: int| after[i].fence_id == slot as u32;
    lemma_first_index_ext(before.len(), p, q);
    assert(first_index(after.len(), q) == Some(before.len() as int));
}

/// The kernel's global state: its fence table and the scheduler tick count.
pub struct Kernel {
    pub fences: FenceManager,
    pub ticks: u64,
}

impl Kernel {
    /// A kernel with an empty fence table that has not ticked yet.
    pub fn new() -> (k: Self)
        ensures
            k.fences.wf(),
            k.fences@ == Seq::<FenceInfo>::empty(),
            k.uptime_spec() == 0,
    {
        Kernel { fences: FenceManager::new(), ticks: 0 }
    }

    /// The number of scheduler ticks so far.
    pub open spec fn uptime_spec(self) -> u64 {
        self.ticks
    }

    /// Brings the hardware to a known state: every fence is switched off.
    /// Always succeeds with 0.
    pub fn init_hardware(&mut self) -> (r: u8)
        requires
            old(self).fences.wf(),
        ensures
            r == 0,
            final(self).fences.wf(),
            final(self).uptime_spec() == old(self).uptime_spec(),
            final(self).fences@.len() == old(self).fences@.len(),
            forall|i: int| 0 <= i < old(self).fences@.len() ==> #[trigger] final(self).fences@[i] == (FenceInfo {
                active: false,
                ..old(self).fences@[i]
            }),
    {
        self.fences.deactivate_all();
        0
    }

    /// Resets the tick count; always succeeds with 0.
    pub fn scheduler_init(&mut self) -> (r: u8)
        ensures
            r == 0,
            final(self).uptime_spec() == 0,
            final(self).fences == old(self).fences,
    {
        self.ticks = 0;
        0
    }

    /// Advances the tick count by one.
    pub fn scheduler_tick(&mut self)
        requires
            old(self).uptime_spec() < u64::MAX,
        ensures
            final(self).uptime_spec() == old(self).uptime_spec() + 1,
            final(self).fences == old(self).fences,
    {
        self.ticks = self.ticks + 1;
    }

    /// Ticks since the scheduler was started.
    pub fn uptime(&self) -> (t: u64)
        ensures
            t == self.uptime_spec(),
    {
        self.ticks
    }
}

} // verus!
