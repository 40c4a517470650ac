//! Watching a project for changes: the events, and the debouncer that
//! holds back file events until they have been quiet for a while and
//! spaces out the rebuilds they trigger. Times are nanoseconds on a
//! monotonic clock, counted from the debouncer's creation.

use vstd::prelude::*;
use crate::table::{keys_of, key_index, keys_distinct, lemma_key_index, find_key};

verus! {

/// A change in the watched project.
#[derive(Debug, Clone)]
pub enum WatchEvent {
    FileChanged(String),
    ManifestChanged,
    FileAdded(String),
    FileRemoved(String),
}

#[verifier::external_type_specification]
#[verifier::external_body]
pub struct ExInstant(std::time::Instant);

/// Calls `Instant::now`: a reading of the monotonic clock.
#[verifier::external_body]
fn instant_now() -> (r: std::time::Instant) {
    std::time::Instant::now()
}

/// Reads the monotonic clock: the nanoseconds since `epoch`, cut to 64 bits.
/// The reading depends on the time; nothing more is stated of it.
#[verifier::external_body]
fn nanos_since(epoch: &std::time::Instant) -> (r: u64) {
    epoch.elapsed().as_nanos() as u64
}

/// `later - earlier`, or 0 where `earlier` is the later one (as
/// `Instant::duration_since` saturates).
pub open spec fn elapsed(later: u64, earlier: u64) -> nat {
    if later >= earlier { (later - earlier) as nat } else { 0 }
}

/// Whether an event stamped `at` has been quiet for `debounce_ms` at `now`.
pub open spec fn settled(now: u64, at: u64, debounce_ms: u64) -> bool {
    elapsed(now, at) >= debounce_ms * 1_000_000
}

/// Whether a trigger may happen at `now`: always before the first,
/// afterwards once `min_interval_ms` have passed since the last.
pub open spec fn may_trigger(last: Option<u64>, now: u64, min_interval_ms: u64) -> bool {
    match last {
        Some(l) => elapsed(now, l) >= min_interval_ms * 1_000_000,
        None => true,
    }
}

/// The pending paths that have settled, in order.
pub open spec fn settled_paths(p: Seq<(Seq<char>, u64)>, now: u64, debounce_ms: u64) -> Seq<Seq<char>>
    decreases p.len(),
{
    if p.len() == 0 {
        seq![]
    } else {
        settled_paths(p.drop_last(), now, debounce_ms) + if settled(now, p.last().1, debounce_ms) {
            seq![p.last().0]
        } else {
            seq![]
        }
    }
}

/// The pending entries that have not settled, in order.
pub open spec fn unsettled(p: Seq<(Seq<char>, u64)>, now: u64, debounce_ms: u64) -> Seq<(Seq<char>, u64)>
    decreases p.len(),
{
    if p.len() == 0 {
        seq![]
    } else {
        unsettled(p.drop_last(), now, debounce_ms) + if settled(now, p.last().1, debounce_ms) {
            seq![]
        } else {
            seq![p.last()]
        }
    }
}

pub open spec fn pending_view(v: Seq<(String, u64)>) -> Seq<(Seq<char>, u64)> {
    v.map_values(|e: (String, u64)| (e.0@, e.1))
}

/// The paths of the pending entries.
pub open spec fn pending_paths(p: Seq<(Seq<char>, u64)>) -> Seq<Seq<char>> {
    p.map_values(|e: (Seq<char>, u64)| e.0)
}

/// An event on `k` at `t`: a pending path takes the new time in its place;
/// a new path goes last.
pub open spec fn pending_insert(p: Seq<(Seq<char>, u64)>, k: Seq<char>, t: u64) -> Seq<(Seq<char>, u64)> {
    match key_index(pending_paths(p), k) {
        Some(i) => p.update(i, (k, t)),
        None => p.push((k, t)),
    }
}

/// Holds back file events until they settle, and spaces out triggers.
pub struct Debouncer {
    epoch: std::time::Instant,
    pending: Vec<(String, u64)>,
    last_trigger: Option<u64>,
}

impl Debouncer {
    /// The pending events: each path with the time of its latest event, in
    /// the order the paths were first seen.
    pub closed spec fn pending(&self) -> Seq<(Seq<char>, u64)> {
        pending_view(self.pending@)
    }

    /// When the last trigger happened, if one did.
    pub closed spec fn last_trigger(&self) -> Option<u64> {
        self.last_trigger
    }

    /// No path is pending twice.
    pub closed spec fn wf(&self) -> bool {
        keys_distinct(keys_of(self.pending@))
    }

    /// A debouncer with nothing pending and no trigger yet.
    pub fn new() -> (r: Self)
        ensures
            r.wf(),
            r.pending().len() == 0,
            r.last_trigger() is None,
    {
        Debouncer { epoch: instant_now(), pending: Vec::new(), last_trigger: None }
    }

    /// Records an event on `path` at time `now` (see `pending_insert`).
    pub fn on_file_event_at(&mut self, path: String, now: u64)
        requires
            old(self).wf(),
        ensures
            final(self).wf(),
            final(self).last_trigger() == old(self).last_trigger(),
            final(self).pending() == pending_insert(old(self).pending(), path@, now),
    {
        let ghost before = self.pending@;
        let ghost pv = pending_view(before);
        assert(keys_of(before) =~= pending_paths(pv));
        proof { lemma_key_index(keys_of(before), path@); }
        match find_key(&self.pending, path.as_str()) {
            Some(i) => {
                let k = self.pending[i].0.clone();
                self.pending.set(i, (k, now));
                assert(pending_view(self.pending@) =~= pv.update(i as int, (path@, now)));
                assert(keys_of(self.pending@) =~= keys_of(before));
            }
            None => {
                self.pending.push((path, now));
                assert(pending_view(self.pending@) =~= pv.push((path@, now)));
                assert(keys_of(self.pending@) =~= keys_of(before).push(path@));
            }
        }
    }

    /// Records an event on `path` now (see `on_file_event_at`).
    pub fn on_file_event(&mut self, path: String)
        requires
            old(self).wf(),
        ensures
            final(self).wf(),
            final(self).last_trigger() == old(self).last_trigger(),
            exists|now: u64| final(self).pending() == pending_insert(old(self).pending(), path@, now),
    {
        let now = nanos_since(&self.epoch);
        self.on_file_event_at(path, now);
    }

    /// Takes out the pending paths that have been quiet for `debounce_ms`
    /// at time `now`, in order; the others stay pending, in order.
    pub fn flush_at(&mut self, now: u64, debounce_ms: u64) -> (r: Vec<String>)
        requires
            old(self).wf(),
        ensures
            final(self).wf(),
            final(self).last_trigger() == old(self).last_trigger(),
            r@.map_values(|s: String| s@) == settled_paths(old(self).pending(), now, debounce_ms),
            final(self).pending() == unsettled(old(self).pending(), now, debounce_ms),
    {
        let ghost pv = self.pending();
        let ghost old_keys = keys_of(self.pending@);
        let mut kept: Vec<(String, u64)> = Vec::new();
        let mut flushed: Vec<String> = Vec::new();
        let mut i: usize = 0;
        let limit: u128 = (debounce_ms as u128) * 1_000_000;
        while i < self.pending.len()
            invariant
                i <= self.pending@.len(),
                pv == pending_view(self.pending@),
                old_keys == keys_of(self.pending@),
                keys_distinct(old_keys),
                limit == debounce_ms * 1_000_000,
                flushed@.map_values(|s: String| s@) == settled_paths(pv.subrange(0, i as int), now, debounce_ms),
                pending_view(kept@) == unsettled(pv.subrange(0, i as int), now, debounce_ms),
                keys_distinct(keys_of(kept@)),
                forall|a: int| 0 <= a < kept@.len() ==> old_keys.subrange(0, i as int).contains(#[trigger] keys_of(kept@)[a]),
            decreases self.pending@.len() - i,
        {
            let ghost pre = pv.subrange(0, i + 1);
            assert(pre.drop_last() =~= pv.subrange(0, i as int));
            assert(pre.last() == (self.pending@[i as int].0@, self.pending@[i as int].1));
            let at = self.pending[i].1;
            let age: u64 = if now >= at { now - at } else { 0 };
            let ghost fv = flushed@.map_values(|s: String| s@);
            let ghost kv = pending_view(kept@);
            let ghost kb = keys_of(kept@);
            if (age as u128) >= limit {
                flushed.push(self.pending[i].0.clone());
                assert(flushed@.map_values(|s: String| s@) =~= fv.push(self.pending@[i as int].0@));
                assert(pending_view(kept@) =~= kv);
            } else {
                kept.push((self.pending[i].0.clone(), at));
                assert(pending_view(kept@) =~= kv.push((self.pending@[i as int].0@, at)));
                assert(keys_of(kept@) =~= kb.push(old_keys[i as int]));
                assert forall|a: int| 0 <= a < kb.len() implies kb[a] != old_keys[i as int] by {
                    assert(old_keys.subrange(0, i as int).contains(kb[a]));
                    let b = choose|b: int| 0 <= b < i && old_keys.subrange(0, i as int)[b] == kb[a];
                    assert(old_keys[b] == kb[a]);
                }
            }
            assert forall|a: int| 0 <= a < kept@.len() implies old_keys.subrange(0, i + 1).contains(#[trigger] keys_of(kept@)[a]) by {
                if a < kb.len() {
                    assert(keys_of(kept@)[a] == kb[a]);
                    assert(old_keys.subrange(0, i as int).contains(kb[a]));
                    let b = choose|b: int| 0 <= b < i && old_keys.subrange(0, i as int)[b] == kb[a];
                    assert(old_keys.subrange(0, i + 1)[b] == kb[a]);
                } else {
                    assert(old_keys.subrange(0, i + 1)[i as int] == old_keys[i as int]);
                }
            }
            i = i + 1;
        }
        assert(pv.subrange(0, pv.len() as int) =~= pv);
        self.pending = kept;
        flushed
    }

    /// Takes out the paths that have settled by now (see `flush_at`).
    pub fn flush(&mut self, debounce_ms: u64) -> (r: Vec<String>)
        requires
            old(self).wf(),
        ensures
            final(self).wf(),
            final(self).last_trigger() == old(self).last_trigger(),
            exists|now: u64| r@.map_values(|s: String| s@) == settled_paths(old(self).pending(), now, debounce_ms)
                && final(self).pending() == unsettled(old(self).pending(), now, debounce_ms),
    {
        let now = nanos_since(&self.epoch);
        self.flush_at(now, debounce_ms)
    }

    /// Whether a trigger may happen at time `now`: always before the first,
    /// afterwards once `min_interval_ms` have passed since the last.
    pub fn should_trigger_at(&self, now: u64, min_interval_ms: u64) -> (b: bool)
        ensures
            b == may_trigger(self.last_trigger(), now, min_interval_ms),
    {
        match self.last_trigger {
            Some(last) => {
                let age: u64 = if now >= last { now - last } else { 0 };
                (age as u128) >= (min_interval_ms as u128) * 1_000_000
            }
            None => true,
        }
    }

    /// Whether a trigger may happen now (see `should_trigger_at`).
    pub fn should_trigger(&self, min_interval_ms: u64) -> (b: bool)
        ensures
            exists|now: u64| b == #[trigger] may_trigger(self.last_trigger(), now, min_interval_ms),
    {
        let now = nanos_since(&self.epoch);
        self.should_trigger_at(now, min_interval_ms)
    }

    /// Records a trigger at time `now`.
    pub fn mark_triggered_at(&mut self, now: u64)
        requires
            old(self).wf(),
        ensures
            final(self).wf(),
            final(self).pending() == old(self).pending(),
            final(self).last_trigger() == Some(now),
    {
        self.last_trigger = Some(now);
    }

    /// Records a trigger now.
    pub fn mark_triggered(&mut self)
        requires
            old(self).wf(),
        ensures
            final(self).wf(),
            final(self).pending() == old(self).pending(),
            final(self).last_trigger() is Some,
    {
        let now = nanos_since(&self.epoch);
        self.mark_triggered_at(now);
    }
}

/// What one flush returns and what stays pending are the pending entries,
/// split by whether they have settled: together they are as many as there
/// were, and each settled path is no longer pending.
pub proof fn law_flush_partitions(p: Seq<(Seq<char>, u64)>, now: u64, debounce_ms: u64)
    ensures
        settled_paths(p, now, debounce_ms).len() + unsettled(p, now, debounce_ms).len() == p.len(),
        forall|k: int| 0 <= k < unsettled(p, now, debounce_ms).len()
            ==> !settled(now, #[trigger] unsettled(p, now, debounce_ms)[k].1, debounce_ms),
    decreases p.len(),
{
    if p.len() > 0 {
        law_flush_partitions(p.drop_last(), now, debounce_ms);
        let u0 = unsettled(p.drop_last(), now, debounce_ms);
        let u = unsettled(p, now, debounce_ms);
        assert forall|k: int| 0 <= k < u.len() implies !settled(now, #[trigger] u[k].1, debounce_ms) by {
            if k < u0.len() {
                assert(u[k] == u0[k]);
            }
        }
    }
}

} // verus!
