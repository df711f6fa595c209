//! The engine's guarantees, stated and proved over the state model.
//!
//! Each lemma here is a law of the coordinator: offsets only grow, ranges
//! in a slot never overlap, committed keys are frozen forever, orphaned
//! pending keys stay visible, ghosts can be claimed again, and the waiter
//! queue is served strictly in arrival order.

use vstd::prelude::*;

use crate::blob::{
    alloc_offset, batch_total, first_free, first_invalid, grant_err, grant_ok, inv,
    is_prohibited, key_unavailable, lemma_found_key, model_alloc, model_clean, model_handoff,
    model_unlock, pending_live, promote_reg, promote_state, ranges_disjoint, reg_after_alloc,
    reg_has, reg_idx, reg_state, reg_upsert, state_file_id, state_num_bytes, state_offset,
    validate, KeyState, RegEntryModel, StorageModel,
};
use crate::errors::BlobErrorModel;
use crate::http::EntryModel;

verus! {

/// Whether some batch entry carries `key`.
pub open spec fn batch_has_key(entries: Seq<EntryModel>, key: Seq<char>) -> bool {
    exists|i: int| 0 <= i < entries.len() && entries[i].key == key
}

/// Unique registry keys, on their own (the part of well-formedness that
/// the registry lemmas need).
pub open spec fn reg_keys_unique(reg: Seq<RegEntryModel>) -> bool {
    forall|a: int, b: int| 0 <= a < b < reg.len() ==> reg[a].key != reg[b].key
}

// ------------------------------------------------------------------
// No overlap: ranges in one slot are pairwise disjoint
// ------------------------------------------------------------------

/// In a well-formed state, the byte ranges of any two registered keys
/// that share a slot never overlap, whether they are pending or
/// committed.
pub proof fn lemma_no_overlap(m: StorageModel, i: int, j: int)
    requires
        inv(m),
        0 <= i < m.registry.len(),
        0 <= j < m.registry.len(),
        i != j,
        state_file_id(m.registry[i].state) == state_file_id(m.registry[j].state),
    ensures
        ranges_disjoint(
            state_offset(m.registry[i].state),
            state_num_bytes(m.registry[i].state),
            state_offset(m.registry[j].state),
            state_num_bytes(m.registry[j].state),
        ),
{
}

// ------------------------------------------------------------------
// Monotonic offsets: slot lengths never decrease
// ------------------------------------------------------------------

// ------------------------------------------------------------------
// Validation laws: what an acceptable batch implies
// ------------------------------------------------------------------

/// A batch that validates holds no unavailable key: none of its keys is
/// committed, and none is pending under a live lease.
pub proof fn lemma_validate_keys_available(
    m: StorageModel,
    entries: Seq<EntryModel>,
    now: u64,
)
    requires
        validate(m, entries, now) is None,
    ensures
        forall|i: int| 0 <= i < entries.len() ==> !key_unavailable(m, #[trigger] entries[i].key, now),
        forall|i: int| 0 <= i < entries.len() ==> !is_prohibited(m.config, #[trigger] entries[i].key),
{
    lemma_first_invalid_available(m, entries, now);
}

proof fn lemma_first_invalid_available(m: StorageModel, entries: Seq<EntryModel>, now: u64)
    requires
        first_invalid(m, entries, now) is None,
    ensures
        forall|i: int| 0 <= i < entries.len() ==> !key_unavailable(m, #[trigger] entries[i].key, now),
        forall|i: int| 0 <= i < entries.len() ==> !is_prohibited(m.config, #[trigger] entries[i].key),
    decreases entries.len(),
{
    if entries.len() > 0 {
        lemma_first_invalid_available(m, entries.drop_first(), now);
        assert forall|i: int| 0 <= i < entries.len() implies !key_unavailable(
            m,
            #[trigger] entries[i].key,
            now,
        ) && !is_prohibited(m.config, entries[i].key) by {
            if i > 0 {
                assert(entries.drop_first()[i - 1] == entries[i]);
            }
        }
    }
}

/// No resurrection: once a key is committed, a batch that names it never
/// validates, so no later `create_and_lock` can reclaim it.
pub proof fn lemma_no_resurrection(
    m: StorageModel,
    entries: Seq<EntryModel>,
    key: Seq<char>,
    now: u64,
)
    requires
        reg_state(m.registry, key) matches Some(KeyState::Committed { .. }),
        batch_has_key(entries, key),
    ensures
        validate(m, entries, now) is Some,
{
    if validate(m, entries, now) is None {
        lemma_validate_keys_available(m, entries, now);
        let i = choose|i: int| 0 <= i < entries.len() && entries[i].key == key;
        assert(!key_unavailable(m, entries[i].key, now));
    }
}

/// Re-claimability: a ghost key (pending, but its lease expired or was
/// replaced) does not make a batch fail as `AlreadyExists`; a one-entry
/// batch for it validates whenever the key is not prohibited.
pub proof fn lemma_ghost_reclaimable(m: StorageModel, key: Seq<char>, num_bytes: u64, now: u64)
    requires
        reg_state(m.registry, key) matches Some(KeyState::Pending { file_id, generation, .. })
            && !pending_live(m, file_id, generation, now),
        !is_prohibited(m.config, key),
    ensures
        validate(m, seq![EntryModel { key, num_bytes }], now) is None,
{
    let entries = seq![EntryModel { key, num_bytes }];
    assert(!crate::blob::has_dup(entries));
    assert(!key_unavailable(m, key, now));
    assert(first_invalid(m, entries, now) == first_invalid(m, entries.drop_first(), now));
    assert(entries.drop_first().len() == 0);
}

// ------------------------------------------------------------------
// Registry stability: committed keys are frozen, pending keys persist
// ------------------------------------------------------------------

/// Marking a batch pending never touches a key outside the batch, and
/// leaves every registered key registered; a key inside the batch ends up
/// pending. Registry keys stay unique.
pub proof fn lemma_reg_after_alloc_state(
    reg: Seq<RegEntryModel>,
    entries: Seq<EntryModel>,
    file_id: u32,
    base: u64,
    generation: u64,
    key: Seq<char>,
)
    requires
        reg_keys_unique(reg),
    ensures
        reg_keys_unique(reg_after_alloc(reg, entries, file_id, base, generation)),
        !batch_has_key(entries, key) ==> reg_state(
            reg_after_alloc(reg, entries, file_id, base, generation),
            key,
        ) == reg_state(reg, key),
        batch_has_key(entries, key) || reg_state(reg, key) is Some ==> reg_state(
            reg_after_alloc(reg, entries, file_id, base, generation),
            key,
        ) is Some,
        batch_has_key(entries, key) ==> reg_state(
            reg_after_alloc(reg, entries, file_id, base, generation),
            key,
        ) matches Some(KeyState::Pending { .. }),
    decreases entries.len(),
{
    if entries.len() == 0 {
        assert(!batch_has_key(entries, key));
    } else {
        let e = entries[0];
        let st = KeyState::Pending {
            file_id,
            offset: base,
            num_bytes: e.num_bytes,
            generation,
        };
        let reg1 = reg_upsert(reg, e.key, st);
        lemma_reg_upsert_state(reg, e.key, st, key);
        lemma_reg_upsert_state(reg, e.key, st, e.key);
        lemma_reg_after_alloc_state(
            reg1,
            entries.drop_first(),
            file_id,
            (base + e.num_bytes) as u64,
            generation,
            key,
        );
        if batch_has_key(entries, key) {
            let i = choose|i: int| 0 <= i < entries.len() && entries[i].key == key;
            if i == 0 {
                if !batch_has_key(entries.drop_first(), key) {
                    assert(reg_state(reg1, key) matches Some(KeyState::Pending { .. }));
                }
            } else {
                assert(entries.drop_first()[i - 1] == entries[i]);
                assert(batch_has_key(entries.drop_first(), key));
            }
        } else {
            assert(e.key != key);
            assert forall|i: int| 0 <= i < entries.drop_first().len() implies entries.drop_first()[
                i
            ].key != key by {
                assert(entries.drop_first()[i] == entries[i + 1]);
            }
            assert(!batch_has_key(entries.drop_first(), key));
        }
    }
}

/// One registry upsert, seen through the spec-level search: the upserted
/// key ends with the new state, every other key keeps its state, and keys
/// stay unique.
pub proof fn lemma_reg_upsert_state(
    reg: Seq<RegEntryModel>,
    up_key: Seq<char>,
    st: KeyState,
    key: Seq<char>,
)
    requires
        reg_keys_unique(reg),
    ensures
        reg_keys_unique(reg_upsert(reg, up_key, st)),
        key == up_key ==> reg_state(reg_upsert(reg, up_key, st), key) == Some(st),
        key != up_key ==> reg_state(reg_upsert(reg, up_key, st), key) == reg_state(reg, key),
{
    let after = reg_upsert(reg, up_key, st);
    if reg_has(reg, up_key) {
        let ui = reg_idx(reg, up_key);
        assert(0 <= ui < reg.len() && reg[ui].key == up_key);
        assert forall|a: int, b: int| 0 <= a < b < after.len() implies after[a].key
            != after[b].key by {
            assert(after[a].key == reg[a].key);
            assert(after[b].key == reg[b].key);
        }
        lemma_found_key(after, up_key, ui);
        if key != up_key {
            if reg_has(reg, key) {
                let ki = reg_idx(reg, key);
                assert(0 <= ki < reg.len() && reg[ki].key == key);
                assert(ki != ui);
                assert(after[ki].key == key && after[ki].state == reg[ki].state);
                lemma_found_key(after, key, ki);
            } else {
                assert forall|i: int| 0 <= i < after.len() implies after[i].key != key by {
                    assert(after[i].key == reg[i].key);
                }
                assert(!reg_has(after, key));
            }
        }
    } else {
        assert forall|i: int| 0 <= i < reg.len() implies reg[i].key != up_key by {
            assert(reg[i].key == reg[i].key);
        }
        assert forall|a: int, b: int| 0 <= a < b < after.len() implies after[a].key
            != after[b].key by {
            if b < reg.len() {
                assert(after[a].key == reg[a].key);
                assert(after[b].key == reg[b].key);
            } else {
                assert(after[a].key == reg[a].key);
            }
        }
        lemma_found_key(after, up_key, reg.len() as int);
        if key != up_key {
            if reg_has(reg, key) {
                let ki = reg_idx(reg, key);
                assert(after[ki].key == key && after[ki].state == reg[ki].state);
                lemma_found_key(after, key, ki);
            } else {
                assert forall|i: int| 0 <= i < after.len() implies after[i].key != key by {
                    if i < reg.len() {
                        assert(after[i].key == reg[i].key);
                    }
                }
                assert(!reg_has(after, key));
            }
        }
    }
}

/// Promotion never unregisters a key, and never demotes a committed one:
/// a key committed before an unlock is committed with the same range
/// after it, and every other key keeps its identity.
pub proof fn lemma_promote_state(reg: Seq<RegEntryModel>, generation: u64, key: Seq<char>)
    requires
        reg_keys_unique(reg),
    ensures
        reg_keys_unique(promote_reg(reg, generation)),
        reg_state(promote_reg(reg, generation), key) == match reg_state(reg, key) {
            Some(st) => Some(promote_state(st, generation)),
            None => None,
        },
{
    let after = promote_reg(reg, generation);
    assert forall|a: int, b: int| 0 <= a < b < after.len() implies after[a].key
        != after[b].key by {
        assert(after[a].key == reg[a].key);
        assert(after[b].key == reg[b].key);
    }
    if reg_has(reg, key) {
        let ki = reg_idx(reg, key);
        assert(0 <= ki < reg.len() && reg[ki].key == key);
        assert(after[ki].key == key);
        lemma_found_key(after, key, ki);
    } else {
        assert forall|i: int| 0 <= i < after.len() implies after[i].key != key by {
            assert(after[i].key == reg[i].key);
        }
        assert(!reg_has(after, key));
    }
}

/// Through a whole hand-off pass, a committed key keeps exactly its
/// committed range, and a registered key never vanishes.
pub proof fn lemma_handoff_registry(m: StorageModel, now: u64, key: Seq<char>)
    requires
        reg_keys_unique(m.registry),
    ensures
        reg_keys_unique(model_handoff(m, now).registry),
        reg_state(m.registry, key) matches Some(KeyState::Committed { .. }) ==> reg_state(
            model_handoff(m, now).registry,
            key,
        ) == reg_state(m.registry, key),
        reg_state(m.registry, key) matches Some(KeyState::Pending { .. }) ==> (reg_state(
            model_handoff(m, now).registry,
            key,
        ) matches Some(KeyState::Pending { .. })),
    decreases m.waiters.len(),
{
    if m.waiters.len() == 0 || first_free(m, now) is None {
    } else {
        let s = first_free(m, now)->0;
        let w = m.waiters[0];
        let m1 = StorageModel { waiters: m.waiters.drop_first(), ..m };
        match validate(m, w.entries, now) {
            Some(e) => {
                let mn = StorageModel { grants: m1.grants.push(grant_err(w.ticket, e)), ..m1 };
                lemma_handoff_registry(mn, now, key);
            },
            None => {
                if m.slots[s].length + batch_total(w.entries) <= u64::MAX {
                    let m2 = model_alloc(m1, s, w.entries, w.node_id, now);
                    lemma_reg_after_alloc_state(
                        m1.registry,
                        w.entries,
                        s as u32,
                        m1.slots[s].length,
                        m1.next_generation,
                        key,
                    );
                    if reg_state(m.registry, key) matches Some(KeyState::Committed { .. }) {
                        if batch_has_key(w.entries, key) {
                            lemma_validate_keys_available(m, w.entries, now);
                            let i = choose|i: int|
                                0 <= i < w.entries.len() && w.entries[i].key == key;
                            assert(!key_unavailable(m, w.entries[i].key, now));
                            assert(false);
                        }
                    }
                    let mn = StorageModel {
                        grants: m2.grants.push(grant_ok(w.ticket, alloc_offset(m1, s))),
                        ..m2
                    };
                    lemma_handoff_registry(mn, now, key);
                } else {
                    let mn = StorageModel {
                        grants: m1.grants.push(
                            grant_err(w.ticket, BlobErrorModel::OffsetOverflow),
                        ),
                        ..m1
                    };
                    lemma_handoff_registry(mn, now, key);
                }
            },
        }
    }
}

/// Ghost persistence: a pending key whose lease expired is still pending
/// after a cleaner pass (expiry plus hand-off): a lookup then reports it
/// as not written, never as unknown, until a new allocation claims it.
pub proof fn lemma_ghost_persistence(m: StorageModel, now: u64, key: Seq<char>)
    requires
        inv(m),
        reg_state(m.registry, key) matches Some(KeyState::Pending { .. }),
    ensures
        reg_state(model_handoff(model_clean(m, now), now).registry, key) matches Some(
            KeyState::Pending { .. },
        ),
{
    let mc = model_clean(m, now);
    assert(mc.registry == m.registry);
    lemma_handoff_registry(mc, now, key);
}

/// Commitment is permanent across an explicit unlock as well: promotion
/// preserves every committed range exactly.
pub proof fn lemma_committed_stable_unlock(m: StorageModel, slot_id: int, now: u64, key: Seq<char>)
    requires
        inv(m),
        0 <= slot_id < m.slots.len(),
        reg_state(m.registry, key) matches Some(KeyState::Committed { .. }),
    ensures
        reg_state(model_handoff(model_unlock(m, slot_id), now).registry, key) == reg_state(
            m.registry,
            key,
        ),
{
    let generation = m.slots[slot_id].lease->0.generation;
    lemma_promote_state(m.registry, generation, key);
    let mu = model_unlock(m, slot_id);
    lemma_handoff_registry(mu, now, key);
}

// ------------------------------------------------------------------
// FIFO fairness
// ------------------------------------------------------------------

/// The hand-off serves a prefix of the waiter queue: what remains is a
/// suffix in the original order, the old grant records stay in place, and
/// each served waiter's outcome is appended in arrival order.
pub proof fn lemma_handoff_fifo(m: StorageModel, now: u64)
    ensures
        model_handoff(m, now).waiters.len() <= m.waiters.len(),
        model_handoff(m, now).waiters == m.waiters.skip(
            m.waiters.len() - model_handoff(m, now).waiters.len(),
        ),
        model_handoff(m, now).grants.len() == m.grants.len() + m.waiters.len() - model_handoff(
            m,
            now,
        ).waiters.len(),
        forall|t: int|
            0 <= t < m.grants.len() ==> model_handoff(m, now).grants[t] == m.grants[t],
        forall|t: int|
            0 <= t < m.waiters.len() - model_handoff(m, now).waiters.len()
                ==> model_handoff(m, now).grants[m.grants.len() + t].ticket == m.waiters[
                t
            ].ticket,
    decreases m.waiters.len(),
{
    let r = model_handoff(m, now);
    if m.waiters.len() == 0 || first_free(m, now) is None {
        assert(m.waiters.skip(0) =~= m.waiters);
    } else {
        let s = first_free(m, now)->0;
        let w = m.waiters[0];
        let m1 = StorageModel { waiters: m.waiters.drop_first(), ..m };
        let mn = match validate(m, w.entries, now) {
            Some(e) => StorageModel { grants: m1.grants.push(grant_err(w.ticket, e)), ..m1 },
            None => if m.slots[s].length + batch_total(w.entries) <= u64::MAX {
                let m2 = model_alloc(m1, s, w.entries, w.node_id, now);
                StorageModel {
                    grants: m2.grants.push(grant_ok(w.ticket, alloc_offset(m1, s))),
                    ..m2
                }
            } else {
                StorageModel {
                    grants: m1.grants.push(grant_err(w.ticket, BlobErrorModel::OffsetOverflow)),
                    ..m1
                }
            },
        };
        assert(r == model_handoff(mn, now));
        lemma_handoff_fifo(mn, now);
        assert(mn.grants.len() == m.grants.len() + 1);
        assert forall|t: int| 0 <= t < m.grants.len() implies r.grants[t] == m.grants[t] by {
            assert(mn.grants[t] == m.grants[t]);
            assert(r.grants[t] == mn.grants[t]);
        }
        let served = mn.waiters.len() - r.waiters.len();
        assert(mn.waiters == m.waiters.drop_first());
        assert(mn.waiters.skip(served) =~= m.waiters.skip(served + 1));
        assert(r.waiters == m.waiters.skip(m.waiters.len() - r.waiters.len()));
        assert forall|t: int|
            0 <= t < m.waiters.len() - r.waiters.len() implies r.grants[m.grants.len()
            + t].ticket == m.waiters[t].ticket by {
            if t == 0 {
                assert(mn.grants[m.grants.len() as int] == mn.grants.last());
                assert(r.grants[m.grants.len() as int] == mn.grants[m.grants.len() as int]);
            } else {
                assert(r.grants[mn.grants.len() + (t - 1)].ticket == mn.waiters[t - 1].ticket);
                assert(mn.waiters[t - 1] == m.waiters[t]);
            }
        }
    }
}

/// FIFO fairness, caller's view: of two waiters, the earlier is always
/// served no later than the later one. Whenever the later waiter has been
/// taken off the queue, so has the earlier; and their recorded outcomes
/// sit in arrival order.
pub proof fn lemma_fifo_fairness(m: StorageModel, now: u64, i: int, j: int)
    requires
        0 <= i < j < m.waiters.len(),
    ensures
        ({
            let r = model_handoff(m, now);
            let served = m.waiters.len() - r.waiters.len();
            &&& (j < served ==> i < served)
            &&& (j < served ==> r.grants[m.grants.len() + i].ticket == m.waiters[i].ticket
                && r.grants[m.grants.len() + j].ticket == m.waiters[j].ticket && m.grants.len()
                + i < m.grants.len() + j)
            &&& (i >= served ==> r.waiters[i - served] == m.waiters[i])
        }),
{
    lemma_handoff_fifo(m, now);
}

} // verus!
