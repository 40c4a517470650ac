//! Security services of the Moore kernel: PUF status, bitstream signature
//! checks, active fences over reconfigurable slots, and pointer
//! authentication contexts.

use vstd::prelude::*;
use crate::seqs::{first_index, lemma_first_index, lemma_first_index_is, lemma_first_index_none, lemma_first_index_ext};

verus! {

pub const PUF_NOT_READY: u8 = 0x31;
pub const SIG_INVALID: u8 = 0x32;
pub const KEYSTORE_LOCKED: u8 = 0x33;
pub const FENCE_CONFLICT: u8 = 0x34;

pub const FENCE_MODE_RANDOM: u8 = 0x01;
pub const FENCE_MODE_SWEEP: u8 = 0x02;
pub const FENCE_MODE_BURST: u8 = 0x03;

pub const MAX_FENCES: usize = 4;

/// Status of the physically unclonable function.
pub struct PufStatus {
    pub initialized: bool,
    pub error_code: u8,
    pub key_available: bool,
}

impl PufStatus {
    /// The PUF is reported initialized, error-free and with a key available.
    pub fn check() -> (s: Self)
        ensures
            s.initialized,
            s.error_code == 0,
            s.key_available,
    {
        PufStatus { initialized: true, error_code: 0, key_available: true }
    }
}

/// Outcome of a signature check.
pub struct SignatureVerification {
    pub valid: bool,
    pub error_code: u8,
    pub key_id: u32,
}

/// The signature check of a bitstream. No check against a device key is
/// made here: every bitstream is reported valid, with error code 0 and key
/// `0x12345678`.
pub fn verify_signature(data: &[u8], sig: &[u8]) -> (r: SignatureVerification)
    ensures
        r.valid,
        r.error_code == 0,
        r.key_id == 0x12345678,
{
    SignatureVerification { valid: true, error_code: 0, key_id: 0x12345678 }
}

/// The key-encryption key derived from a PUF challenge: the 32-byte key
/// buffer, which the kernel keeps zeroed.
pub fn derive_kek(puf_challenge: &[u8]) -> (r: Result<Vec<u8>, u8>)
    ensures
        r is Ok,
        r->Ok_0@.len() == 32,
        forall|i: int| 0 <= i < 32 ==> r->Ok_0@[i] == 0u8,
{
    let mut kek: Vec<u8> = Vec::new();
    let mut i: usize = 0;
    while i < 32
        invariant
            i <= 32,
            kek@.len() == i,
            forall|j: int| 0 <= j < i ==> kek@[j] == 0u8,
        decreases 32 - i,
    {
        kek.push(0u8);
        i = i + 1;
    }
    Ok(kek)
}

/// An active fence guarding one reconfigurable slot.
#[derive(Clone, Copy)]
pub struct ActiveFence {
    pub fence_id: u32,
    pub slot: u8,
    pub active: bool,
    pub mode: u8,
    pub frequency_hz: u32,
}

impl ActiveFence {
    /// A fresh, inactive fence for `slot` in random mode.
    pub fn new(slot: u8) -> (f: Self)
        ensures
            f.fence_id == slot as u32,
            f.slot == slot,
            !f.active,
            f.mode == FENCE_MODE_RANDOM,
            f.frequency_hz == 0,
    {
        ActiveFence { fence_id: slot as u32, slot, active: false, mode: FENCE_MODE_RANDOM, frequency_hz: 0 }
    }

    /// Switches the fence on with the given mode and frequency.
    pub fn activate(&mut self, mode: u8, freq_hz: u32) -> (r: Result<(), u8>)
        ensures
            r is Ok,
            *final(self) == (ActiveFence { active: true, mode: mode, frequency_hz: freq_hz, ..*old(self) }),
    {
        self.active = true;
        self.mode = mode;
        self.frequency_hz = freq_hz;
        Ok(())
    }

    /// Switches the fence off; its frequency drops to zero and its mode stays.
    pub fn deactivate(&mut self) -> (r: Result<(), u8>)
        ensures
            r is Ok,
            *final(self) == (ActiveFence { active: false, frequency_hz: 0, ..*old(self) }),
    {
        self.active = false;
        self.frequency_hz = 0;
        Ok(())
    }
}

/// Index of the fence guarding `slot` among `fences`, if any.
pub open spec fn slot_index(fences: Seq<ActiveFence>, slot: u8) -> Option<int> {
    first_index(fences.len(), |i: int| fences[i].slot == slot)
}

/// What `get_status` reports for `slot`.
pub open spec fn slot_status(fences: Seq<ActiveFence>, slot: u8) -> Option<(bool, u8, u32)> {
    match slot_index(fences, slot) {
        Some(i) => Some((fences[i].active, fences[i].mode, fences[i].frequency_hz)),
        None => None,
    }
}

/// The fences after activating `slot`: an existing fence is switched on in
/// place, otherwise a new one is appended (when there is room).
pub open spec fn fences_after_activate(fences: Seq<ActiveFence>, slot: u8, mode: u8, freq: u32) -> Seq<ActiveFence> {
    match slot_index(fences, slot) {
        Some(i) => fences.update(i, ActiveFence { active: true, mode: mode, frequency_hz: freq, ..fences[i] }),
        None => if fences.len() >= MAX_FENCES {
            fences
        } else {
            fences.push(ActiveFence { fence_id: slot as u32, slot: slot, active: true, mode: mode, frequency_hz: freq })
        },
    }
}

/// The fences after deactivating `slot`.
pub open spec fn fences_after_deactivate(fences: Seq<ActiveFence>, slot: u8) -> Seq<ActiveFence> {
    match slot_index(fences, slot) {
        Some(i) => fences.update(i, ActiveFence { active: false, frequency_hz: 0, ..fences[i] }),
        None => fences,
    }
}

/// The fence table of a reconfigurable fabric: at most `MAX_FENCES` fences,
/// one per slot, kept in the order they were first activated.
pub struct FenceManager {
    fences: Vec<ActiveFence>,
    count: u8,
}

impl View for FenceManager {
    type V = Seq<ActiveFence>;

    closed spec fn view(&self) -> Seq<ActiveFence> {
        self.fences@
    }
}

impl FenceManager {
    /// At most `MAX_FENCES` fences, the count matches, each fence's id is its
    /// slot, and no slot is fenced twice.
    pub closed spec fn wf(self) -> bool {
        &&& self.fences@.len() <= MAX_FENCES
        &&& self.count as int == self.fences@.len()
        &&& forall|i: int| 0 <= i < self.fences@.len() ==> #[trigger] self.fences@[i].fence_id == self.fences@[i].slot as u32
        &&& forall|i: int, j: int|
            0 <= i < j < self.fences@.len() ==> #[trigger] self.fences@[i].slot != #[trigger] self.fences@[j].slot
    }

    /// An empty fence table.
    pub fn new() -> (m: Self)
        ensures
            m.wf(),
            m@ == Seq::<ActiveFence>::empty(),
    {
        FenceManager { fences: Vec::new(), count: 0 }
    }

    fn find(&self, slot: u8) -> (r: Option<usize>)
        ensures
            match r {
                Some(i) => i < self@.len() && self@[i as int].slot == slot && slot_index(self@, slot) == Some(i as int),
                None => slot_index(self@, slot) == None::<int>
                    && forall|j: int| 0 <= j < self@.len() ==> #[trigger] self@[j].slot != slot,
            },
    {
        let ghost p = |i: int| self.fences@[i].slot == slot;
        let mut i: usize = 0;
        while i < self.fences.len()
            invariant
                i <= self.fences@.len(),
                p == (|i: int| self.fences@[i].slot == slot),
                forall|j: int| 0 <= j < i ==> #[trigger] self.fences@[j].slot != slot,
            decreases self.fences@.len() - i,
        {
            if self.fences[i].slot == slot {
                proof { lemma_first_index_is(self.fences@.len(), p, i as int); }
                return Some(i);
            }
            i = i + 1;
        }
        proof { lemma_first_index_none(self.fences@.len(), p); }
        None
    }

    /// Switches on the fence for `slot`, adding one if the slot has none.
    /// Fails with `FENCE_CONFLICT` exactly when the slot has no fence and the
    /// table is full; then nothing changes.
    pub fn activate(&mut self, slot: u8, mode: u8, freq_hz: u32) -> (r: Result<u8, u8>)
        requires
            old(self).wf(),
        ensures
            final(self).wf(),
            final(self)@ == fences_after_activate(old(self)@, slot, mode, freq_hz),
            r == (if slot_index(old(self)@, slot) is None && old(self)@.len() >= MAX_FENCES {
                Err::<u8, u8>(FENCE_CONFLICT)
            } else {
                Ok::<u8, u8>(0)
            }),
    {
        proof { lemma_first_index(self.fences@.len(), |i: int| self.fences@[i].slot == slot); }
        match self.find(slot) {
            Some(i) => {
                let mut f = self.fences[i];
                let _ = f.activate(mode, freq_hz);
                self.fences.set(i, f);
                Ok(0)
            }
            None => {
                if self.fences.len() >= MAX_FENCES {
                    return Err(FENCE_CONFLICT);
                }
                let mut fence = ActiveFence::new(slot);
                let _ = fence.activate(mode, freq_hz);
                let ghost before = self.fences@;
                self.fences.push(fence);
                self.count = self.count + 1;
                assert forall|a: int, b: int| 0 <= a < b < self.fences@.len() implies
                    #[trigger] self.fences@[a].slot != #[trigger] self.fences@[b].slot by {
                    if b == before.len() {
                        assert(before[a].slot != slot);
                    }
                }
                Ok(0)
            }
        }
    }

    /// Switches off the fence for `slot`, if there is one.
    pub fn deactivate(&mut self, slot: u8) -> (r: Result<(), u8>)
        requires
            old(self).wf(),
        ensures
            final(self).wf(),
            final(self)@ == fences_after_deactivate(old(self)@, slot),
            r is Ok,
    {
        match self.find(slot) {
            Some(i) => {
                let mut f = self.fences[i];
                let _ = f.deactivate();
                self.fences.set(i, f);
                Ok(())
            }
            None => Ok(()),
        }
    }

    /// Switches off every fence.
    pub fn deactivate_all(&mut self) -> (r: Result<(), u8>)
        requires
            old(self).wf(),
        ensures
            final(self).wf(),
            r is Ok,
            final(self)@.len() == old(self)@.len(),
            forall|i: int| 0 <= i < old(self)@.len() ==> #[trigger] final(self)@[i] == (ActiveFence {
                active: false,
                frequency_hz: 0,
                ..old(self)@[i]
            }),
    {
        let ghost orig = self.fences@;
        let mut i: usize = 0;
        while i < self.fences.len()
            invariant
                i <= self.fences@.len(),
                self.fences@.len() == orig.len(),
                self.count as int == orig.len(),
                orig.len() <= MAX_FENCES,
                forall|j: int| 0 <= j < i ==> #[trigger] self.fences@[j] == (ActiveFence { active: false, frequency_hz: 0, ..orig[j] }),
                forall|j: int| i <= j < orig.len() ==> #[trigger] self.fences@[j] == orig[j],
                forall|j: int| 0 <= j < orig.len() ==> #[trigger] orig[j].fence_id == orig[j].slot as u32,
                forall|a: int, b: int| 0 <= a < b < orig.len() ==> #[trigger] orig[a].slot != #[trigger] orig[b].slot,
            decreases self.fences@.len() - i,
        {
            let mut f = self.fences[i];
            let _ = f.deactivate();
            self.fences.set(i, f);
            i = i + 1;
        }
        assert forall|a: int, b: int| 0 <= a < b < self.fences@.len() implies #[trigger] self.fences@[a].slot != #[trigger] self.fences@[b].slot by {
            assert(self.fences@[a].slot == orig[a].slot);
            assert(self.fences@[b].slot == orig[b].slot);
        }
        Ok(())
    }

    /// `(active, mode, frequency)` of the fence for `slot`, if there is one.
    pub fn get_status(&self, slot: u8) -> (r: Option<(bool, u8, u32)>)
        ensures
            r == slot_status(self@, slot),
    {
        match self.find(slot) {
            Some(i) => {
                let f = &self.fences[i];
                Some((f.active, f.mode, f.frequency_hz))
            }
            None => None,
        }
    }
}

impl Default for FenceManager {
    fn default() -> (m: Self)
        ensures
            m.wf(),
            m@ == Seq::<ActiveFence>::empty(),
    {
        Self::new()
    }
}

proof fn lemma_slot_index(fences: Seq<ActiveFence>, slot: u8)
    ensures
        match slot_index(fences, slot) {
            Some(i) => 0 <= i < fences.len() && fences[i].slot == slot
                && forall|j: int| 0 <= j < i ==> #[trigger] fences[j].slot != slot,
            None => forall|j: int| 0 <= j < fences.len() ==> #[trigger] fences[j].slot != slot,
        },
{
    let p = |i: int| fences[i].slot == slot;
    lemma_first_index(fences.len(), p);
    match first_index(fences.len(), p) {
        Some(i) => {
            assert forall|j: int| 0 <= j < i implies #[trigger] fences[j].slot != slot by {
                assert(!p(j));
            }
        },
        None => {
            assert forall|j: int| 0 <= j < fences.len() implies #[trigger] fences[j].slot != slot by {
                assert(!p(j));
            }
        },
    }
}

/// After a successful activation of `slot`, the slot reports itself active
/// with the requested mode and frequency.
pub proof fn law_activate_then_status(fences: Seq<ActiveFence>, slot: u8, mode: u8, freq: u32)
    requires
        !(slot_index(fences, slot) is None && fences.len() >= MAX_FENCES),
    ensures
        slot_status(fences_after_activate(fences, slot, mode, freq), slot) == Some((true, mode, freq)),
{
    let after = fences_after_activate(fences, slot, mode, freq);
    let p = |i: int| fences[i].slot == slot;
    let q = |i: int| after[i].slot == slot;
    lemma_slot_index(fences, slot);
    lemma_first_index(fences.len(), p);
    match slot_index(fences, slot) {
        Some(i) => {
            lemma_first_index_ext(fences.len(), p, q);
        },
        None => {
            lemma_first_index_ext(fences.len(), p, q);
            assert(first_index(after.len(), q) == Some(fences.len() as int));
        },
    }
}

/// Activating `slot` leaves what every other slot reports unchanged.
pub proof fn law_activate_keeps_other_slots(fences: Seq<ActiveFence>, slot: u8, mode: u8, freq: u32, other: u8)
    requires
        other != slot,
    ensures
        slot_status(fences_after_activate(fences, slot, mode, freq), other) == slot_status(fences, other),
{
    let after = fences_after_activate(fences, slot, mode, freq);
    let p = |i: int| fences[i].slot == other;
    let q = |i: int| after[i].slot == other;
    lemma_slot_index(fences, slot);
    lemma_slot_index(fences, other);
    lemma_first_index_ext(fences.len(), p, q);
    if after.len() > fences.len() {
        assert(first_index(after.len(), q) == first_index(fences.len(), q));
    }
    assert(slot_index(after, other) == slot_index(fences, other));
}

/// Deactivating `slot` switches its fence off with zero frequency and keeps
/// its mode; a slot without a fence stays without one.
pub proof fn law_deactivate_then_status(fences: Seq<ActiveFence>, slot: u8)
    ensures
        slot_status(fences_after_deactivate(fences, slot), slot) == (match slot_status(fences, slot) {
            Some((_, mode, _)) => Some((false, mode, 0u32)),
            None => None,
        }),
{
    let after = fences_after_deactivate(fences, slot);
    let p = |i: int| fences[i].slot == slot;
    let q = |i: int| after[i].slot == slot;
    lemma_slot_index(fences, slot);
    lemma_first_index_ext(fences.len(), p, q);
}

/// Deactivating `slot` leaves what every other slot reports unchanged.
pub proof fn law_deactivate_keeps_other_slots(fences: Seq<ActiveFence>, slot: u8, other: u8)
    requires
        other != slot,
    ensures
        slot_status(fences_after_deactivate(fences, slot), other) == slot_status(fences, other),
{
    let after = fences_after_deactivate(fences, slot);
    let p = |i: int| fences[i].slot == other;
    let q = |i: int| after[i].slot == other;
    lemma_slot_index(fences, slot);
    lemma_slot_index(fences, other);
    lemma_first_index_ext(fences.len(), p, q);
    assert(slot_index(after, other) == slot_index(fences, other));
}

/// The table never holds more than `MAX_FENCES` fences, whatever is activated.
pub proof fn law_activate_bounded(fences: Seq<ActiveFence>, slot: u8, mode: u8, freq: u32)
    requires
        fences.len() <= MAX_FENCES,
    ensures
        fences_after_activate(fences, slot, mode, freq).len() <= MAX_FENCES,
{
    lemma_slot_index(fences, slot);
}


/// The slots that have a fence: those for which `get_status` answers.
pub open spec fn status_slots(fences: Seq<ActiveFence>) -> Set<u8> {
    Set::new(|s: u8| slot_status(fences, s) is Some)
}

/// The slot of each fence, in table order.
pub open spec fn fence_slots(fences: Seq<ActiveFence>) -> Seq<u8> {
    fences.map_values(|f: ActiveFence| f.slot)
}

proof fn lemma_status_slots(fences: Seq<ActiveFence>)
    ensures
        status_slots(fences) == fence_slots(fences).to_set(),
{
    assert forall|s: u8| #[trigger] status_slots(fences).contains(s) <==> fence_slots(fences).to_set().contains(s) by {
        lemma_slot_index(fences, s);
        if status_slots(fences).contains(s) {
            let i = slot_index(fences, s)->0;
            assert(fence_slots(fences)[i] == s);
        }
        if fence_slots(fences).contains(s) {
            let i = choose|i: int| 0 <= i < fence_slots(fences).len() && fence_slots(fences)[i] == s;
            assert(fences[i].slot == s);
        }
    }
    assert(status_slots(fences) =~= fence_slots(fences).to_set());
}

/// In a well-formed table the number of slots with a status is the number of
/// fences, so at most `MAX_FENCES` slots ever have one.
pub proof fn law_status_count(m: &FenceManager)
    requires
        m.wf(),
    ensures
        status_slots(m@).finite(),
        status_slots(m@).len() == m@.len(),
        status_slots(m@).len() <= MAX_FENCES,
{
    lemma_status_slots(m@);
    let sl = fence_slots(m@);
    assert(sl.no_duplicates()) by {
        assert forall|i: int, j: int| 0 <= i < sl.len() && 0 <= j < sl.len() && i != j implies sl[i] != sl[j] by {
            if i < j {
                assert(m.fences@[i].slot != m.fences@[j].slot);
            } else {
                assert(m.fences@[j].slot != m.fences@[i].slot);
            }
        }
    }
    sl.unique_seq_to_set();
}

/// Activating `slot` in a well-formed table: where the slot already has a
/// status or fewer than `MAX_FENCES` slots have one, the slot joins the slots
/// with a status; otherwise (the activation fails) they stay as they were.
pub proof fn law_activate_statuses(m: &FenceManager, slot: u8, mode: u8, freq: u32)
    requires
        m.wf(),
    ensures
        status_slots(fences_after_activate(m@, slot, mode, freq)) == (if status_slots(m@).contains(slot)
            || status_slots(m@).len() < MAX_FENCES {
            status_slots(m@).insert(slot)
        } else {
            status_slots(m@)
        }),
{
    law_status_count(m);
    let fences = m@;
    let after = fences_after_activate(fences, slot, mode, freq);
    lemma_slot_index(fences, slot);
    lemma_status_slots(fences);
    lemma_status_slots(after);
    match slot_index(fences, slot) {
        Some(i) => {
            assert(fence_slots(after) =~= fence_slots(fences));
            assert(status_slots(fences).contains(slot));
            assert(status_slots(fences).insert(slot) =~= status_slots(fences));
        },
        None => {
            assert(!status_slots(fences).contains(slot));
            if fences.len() < MAX_FENCES {
                assert(fence_slots(after) =~= fence_slots(fences).push(slot));
                assert(fence_slots(after).to_set() =~= fence_slots(fences).to_set().insert(slot)) by {
                    assert forall|s: u8| fence_slots(after).to_set().contains(s)
                        <==> fence_slots(fences).to_set().insert(slot).contains(s) by {
                        if fence_slots(after).contains(s) {
                            let k = choose|k: int| 0 <= k < fence_slots(after).len() && fence_slots(after)[k] == s;
                            if k < fences.len() {
                                assert(fence_slots(fences)[k] == s);
                            }
                        }
                        if fence_slots(fences).contains(s) {
                            let k = choose|k: int| 0 <= k < fence_slots(fences).len() && fence_slots(fences)[k] == s;
                            assert(fence_slots(after)[k] == s);
                        }
                        if s == slot {
                            assert(fence_slots(after)[fences.len() as int] == s);
                        }
                    }
                }
            }
        },
    }
}
/// An authenticated pointer context: a pointer and size vouched for by a key.
pub struct ApacContext {
    pub authenticated: bool,
    pub pointer: u64,
    pub size: u32,
}

impl ApacContext {
    /// An unauthenticated, empty context.
    pub fn new() -> (c: Self)
        ensures
            !c.authenticated,
            c.pointer == 0,
            c.size == 0,
    {
        ApacContext { authenticated: false, pointer: 0, size: 0 }
    }

    /// Records `ptr` and `sz` as authenticated.
    pub fn authenticate(&mut self, ptr: u64, sz: u32, key: &[u8]) -> (r: Result<(), u8>)
        ensures
            r is Ok,
            final(self).authenticated,
            final(self).pointer == ptr,
            final(self).size == sz,
    {
        self.pointer = ptr;
        self.size = sz;
        self.authenticated = true;
        Ok(())
    }

    /// Whether `ptr` and `sz` are exactly what was authenticated.
    pub fn verify(&self, ptr: u64, sz: u32) -> (b: bool)
        ensures
            b == (self.authenticated && self.pointer == ptr && self.size == sz),
    {
        self.authenticated && self.pointer == ptr && self.size == sz
    }
}

/// The context after `new` followed by the authentications `calls`
/// (pointer and size of each), in order: `new` and `authenticate` fix every
/// field, as their contracts state, so this is the context those calls
/// leave.
pub open spec fn apac_after(calls: Seq<(u64, u32)>) -> ApacContext
    decreases calls.len(),
{
    if calls.len() == 0 {
        ApacContext { authenticated: false, pointer: 0, size: 0 }
    } else {
        let prev = apac_after(calls.drop_last());
        ApacContext { authenticated: true, pointer: calls.last().0, size: calls.last().1, ..prev }
    }
}

/// What `verify` answers on a context.
pub open spec fn apac_accepts(c: ApacContext, ptr: u64, sz: u32) -> bool {
    c.authenticated && c.pointer == ptr && c.size == sz
}

/// After `new` and any sequence of authentications, `verify(ptr, sz)`
/// accepts exactly when there was at least one authentication and the last
/// one was of `ptr` and `sz`.
pub proof fn law_apac_last_authentication(calls: Seq<(u64, u32)>, ptr: u64, sz: u32)
    ensures
        apac_accepts(apac_after(calls), ptr, sz) <==> (calls.len() > 0 && calls.last() == (ptr, sz)),
{
}

impl Default for ApacContext {
    fn default() -> (c: Self)
        ensures
            !c.authenticated,
            c.pointer == 0,
            c.size == 0,
    {
        Self::new()
    }
}

} // verus!
